//! The driver: resolves a file, joins continuation lines, strips comments,
//! dispatches directives, expands macros to a fixpoint, and accumulates
//! the output, recursing into included files.
//!
//! Paths are plain strings: joining an absolute name keeps it, otherwise
//! the base and the name are put together with a single separator, and a
//! path's directory is everything before its last separator.
//!
//! The whole engine is specified by the total, fuel-indexed functions
//! `spec_run_file` and `spec_run_lines`, which fix the output text, the
//! visited set and the macro table after every run, and the exact error
//! of every failing run; the executable driver is proved to compute them.
//! Fuel pays for entering an included file and for each fixpoint rescan;
//! the budget is the largest `usize`, beyond any feasible input.
use vstd::prelude::*;

use crate::lexer::{
    directive_tokens, find_char, find_define, spec_define_match, spec_find_char,
    spec_param_names, spec_tokens, split_params,
};
use crate::strip::{spec_strip_line, strip_line_chars};
use crate::subst::{min_nat, spec_scan, subst_line, SpecSubst, SUBST_FUEL};
use crate::table::{
    spec_file_lookup, spec_table_insert, spec_table_remove, views_of, DefModel,
    Definition, FileEntry, FileMap, FileModel, MacroTable, VisitedSet,
};
use crate::text::{chars_to_string, splice, str_to_chars, subvec};
use crate::PreprocessorError;

verus! {

broadcast use vstd::seq_lib::group_seq_lib_default, vstd::set_lib::group_set_lib_default;

/// A run may enter this many included files and rescan this many lines.
pub const RUN_FUEL: usize = usize::MAX;

/// The base directory and a file name, joined with a single separator; an
/// absolute name stands alone.
pub open spec fn spec_path_join(base: Seq<char>, name: Seq<char>) -> Seq<char> {
    if name.len() > 0 && name[0] == '/' {
        name
    } else if base.len() == 0 {
        name
    } else if base.last() == '/' {
        base + name
    } else {
        base + seq!['/'] + name
    }
}

fn path_join(base: &Vec<char>, name: &Vec<char>) -> (r: Vec<char>)
    ensures
        r@ == spec_path_join(base@, name@),
{
    if name.len() > 0 && name[0] == '/' {
        let r = subvec(name, 0, name.len());
        proof {
            assert(r@ =~= name@);
        }
        return r;
    }
    if base.len() == 0 {
        let r = subvec(name, 0, name.len());
        proof {
            assert(r@ =~= name@);
        }
        return r;
    }
    let mut r = subvec(base, 0, base.len());
    if base[base.len() - 1] != '/' {
        r.push('/');
    }
    let mut tail = subvec(name, 0, name.len());
    r.append(&mut tail);
    proof {
        if base@.last() == '/' {
            assert(r@ =~= base@ + name@);
        } else {
            assert(r@ =~= base@ + seq!['/'] + name@);
        }
    }
    r
}

/// The position of the last separator in a path, if any.
pub open spec fn spec_last_sep(p: Seq<char>) -> Option<int>
    decreases p.len(),
{
    if p.len() == 0 {
        None
    } else if p.last() == '/' {
        Some(p.len() - 1)
    } else {
        spec_last_sep(p.drop_last())
    }
}

/// A path's directory: everything before the last separator, empty when
/// there is none.
pub open spec fn spec_parent_dir(p: Seq<char>) -> Seq<char> {
    match spec_last_sep(p) {
        None => Seq::empty(),
        Some(j) => p.subrange(0, j),
    }
}

fn parent_dir(p: &Vec<char>) -> (r: Vec<char>)
    ensures
        r@ == spec_parent_dir(p@),
{
    let mut b: usize = p.len();
    proof {
        assert(p@.subrange(0, p@.len() as int) =~= p@);
    }
    while b > 0
        invariant
            b <= p@.len(),
            spec_last_sep(p@) == spec_last_sep(p@.subrange(0, b as int)),
        decreases b,
    {
        proof {
            assert(p@.subrange(0, b as int).drop_last() =~= p@.subrange(0, b as int - 1));
        }
        if p[b - 1] == '/' {
            let r = subvec(p, 0, b - 1);
            proof {
                assert(p@.subrange(0, b as int).last() == p@[b as int - 1]);
            }
            return r;
        }
        b = b - 1;
    }
    proof {
        assert(p@.subrange(0, 0) =~= Seq::<char>::empty());
    }
    Vec::new()
}

/// The logical line begun as `cur`, with continuation lines from `k` on
/// joined in: while the text ends in a backslash, the backslash goes and
/// the next physical line is appended. Gives the joined line and the
/// index after the lines consumed.
pub open spec fn spec_join_from(lines: Seq<Seq<char>>, cur: Seq<char>, k: int) -> (Seq<char>, int)
    decreases lines.len() - k,
{
    if cur.len() > 0 && cur.last() == '\\' {
        let cur2 = cur.drop_last();
        if k < 0 || k >= lines.len() {
            (cur2, k)
        } else {
            spec_join_from(lines, cur2 + lines[k], k + 1)
        }
    } else {
        (cur, k)
    }
}

pub proof fn lemma_join_from_bounds(lines: Seq<Seq<char>>, cur: Seq<char>, k: int)
    requires
        0 <= k <= lines.len(),
    ensures
        k <= spec_join_from(lines, cur, k).1 <= lines.len(),
    decreases lines.len() - k,
{
    if cur.len() > 0 && cur.last() == '\\' && 0 <= k < lines.len() {
        lemma_join_from_bounds(lines, cur.drop_last() + lines[k], k + 1);
    }
}

/// The file's comment-free text when it holds no directive at all: each
/// logical line is joined and stripped; a line left inside a block
/// comment contributes nothing; any `#` in a stripped line makes the
/// whole answer nothing (a directive would run); otherwise the stripped
/// line and a newline are kept.
pub open spec fn spec_clean(lines: Seq<Seq<char>>, i: int, in_block: bool) -> Option<Seq<char>>
    decreases lines.len() - i,
    via spec_clean_decreases
{
    if i < 0 || i >= lines.len() {
        Some(Seq::empty())
    } else {
        let jl = spec_join_from(lines, lines[i], i + 1);
        let st = spec_strip_line(jl.0, in_block);
        if st.1 {
            spec_clean(lines, jl.1, true)
        } else if spec_find_char(st.0, 0, '#') is Some {
            None
        } else {
            match spec_clean(lines, jl.1, false) {
                None => None,
                Some(rest) => Some(st.0 + seq!['\n'] + rest),
            }
        }
    }
}

#[via_fn]
proof fn spec_clean_decreases(lines: Seq<Seq<char>>, i: int, in_block: bool) {
    if 0 <= i < lines.len() {
        lemma_join_from_bounds(lines, lines[i], i + 1);
    }
}

/// A failure, with its payloads as plain values.
pub enum PErrModel {
    NotFoundM(Seq<char>),
    NotUtf8M(Seq<char>),
    UnknownM(Seq<char>),
    ArgsM,
    NoParenM,
    CountM(int, int),
}

/// The shape and payload of an error value.
pub open spec fn err_of(e: PreprocessorError) -> PErrModel {
    match e {
        PreprocessorError::FileNotFound(n) => PErrModel::NotFoundM(n@),
        PreprocessorError::FileNotValidUtf8(n) => PErrModel::NotUtf8M(n@),
        PreprocessorError::UnknownDirective(d) => PErrModel::UnknownM(d@),
        PreprocessorError::IncludeIncorrectArgs => PErrModel::ArgsM,
        PreprocessorError::MacroNoParenthesis => PErrModel::NoParenM,
        PreprocessorError::MacroIncorrectArgs(a, b) => PErrModel::CountM(a as int, b as int),
    }
}

/// What repeated substitution of one line comes to.
pub enum FixOut {
    FixDone(Seq<char>),
    FixFail(PreprocessorError),
}

/// Substitutes macros in the line until a pass changes nothing: the text
/// at the fixpoint, or the first pass's failure. A self-reproducing
/// definition spends the whole budget and the last text stands.
pub open spec fn spec_fixpoint(line: Seq<char>, t: Seq<(Seq<char>, DefModel)>, fuel: nat) -> FixOut
    decreases fuel,
{
    if fuel == 0 {
        FixOut::FixDone(line)
    } else {
        match spec_scan(line, 0, t, SUBST_FUEL as nat) {
            SpecSubst::Failed(e, _f) => FixOut::FixFail(e),
            SpecSubst::Spent => FixOut::FixDone(line),
            SpecSubst::Done(t2, _f) => if t2 == line {
                FixOut::FixDone(t2)
            } else {
                spec_fixpoint(t2, t, (fuel - 1) as nat)
            },
        }
    }
}

/// The directive tokens of a `#define` line joined back with single
/// spaces, from token `j` on, as the value text.
pub open spec fn spec_value_text(toks: Seq<Seq<char>>, j: int, acc: Seq<char>) -> Seq<char>
    decreases toks.len() - j,
{
    if j < 0 || j >= toks.len() {
        acc
    } else {
        spec_value_text(
            toks,
            j + 1,
            acc + (if j > 2 {
                seq![' ']
            } else {
                Seq::empty()
            }) + toks[j],
        )
    }
}

/// What a run comes to: the text, the visited set, the table and the fuel
/// after it; or its first failure; or an exhausted budget.
pub enum ProcOut {
    POk(Seq<char>, Set<Seq<char>>, Seq<(Seq<char>, DefModel)>, nat),
    PErr(PErrModel),
    PSpent,
}

/// How many lines of the file are still ahead.
pub open spec fn lines_gap(lns: Seq<Seq<char>>, i: int) -> int {
    if i <= lns.len() {
        lns.len() - i
    } else {
        0
    }
}

/// One file of a run, exactly as the driver performs it: the path is the
/// base joined with the name; a path already visited contributes the
/// empty string and changes nothing; otherwise the path is recorded, the
/// file is looked up (a missing one is not found, one that is not text
/// fails as such), and its lines are processed with the file's own
/// directory as the new base.
pub open spec fn spec_run_file(
    fname: Seq<char>,
    base: Seq<char>,
    files: Seq<(Seq<char>, FileModel)>,
    visited: Set<Seq<char>>,
    defines: Seq<(Seq<char>, DefModel)>,
    fuel: nat,
) -> ProcOut
    decreases fuel, 1int, 0int, 0int,
{
    let path = spec_path_join(base, fname);
    if visited.contains(path) {
        ProcOut::POk(Seq::empty(), visited, defines, fuel)
    } else {
        let v2 = visited.insert(path);
        match spec_file_lookup(files, path) {
            None => ProcOut::PErr(PErrModel::NotFoundM(fname)),
            Some(FileModel::NotUtf8) => ProcOut::PErr(PErrModel::NotUtf8M(fname)),
            Some(FileModel::Text(lns)) => spec_run_lines(
                lns,
                0,
                false,
                spec_parent_dir(path),
                files,
                v2,
                defines,
                Seq::empty(),
                fuel,
            ),
        }
    }
}

/// The lines of one file from `i` on, exactly as the driver performs
/// them. Each logical line is joined and stripped; a line left inside a
/// block comment contributes nothing. The first `#` anywhere in the
/// stripped line begins a directive: `#include` demands exactly two
/// tokens with the path wrapped in matching quotes or angle brackets and
/// splices in the included file's run; `#define` demands at least three
/// tokens and stores a function-like macro where the pattern matches,
/// else the remaining tokens joined by single spaces as a value;
/// `#undef` demands exactly two tokens and removes the name; any other
/// directive word is unknown. The directive span is replaced by what it
/// produced, the line is substituted to a fixpoint, and what remains is
/// kept with a newline.
pub open spec fn spec_run_lines(
    lns: Seq<Seq<char>>,
    i: int,
    ib: bool,
    parent: Seq<char>,
    files: Seq<(Seq<char>, FileModel)>,
    visited: Set<Seq<char>>,
    defines: Seq<(Seq<char>, DefModel)>,
    acc: Seq<char>,
    fuel: nat,
) -> ProcOut
    decreases fuel, 0int, lines_gap(lns, i), 0int,
    via spec_run_lines_decreases
{
    if i < 0 || i >= lns.len() {
        ProcOut::POk(acc, visited, defines, fuel)
    } else {
        let jl = spec_join_from(lns, lns[i], i + 1);
        let st = spec_strip_line(jl.0, ib);
        if st.1 {
            spec_run_lines(lns, jl.1, true, parent, files, visited, defines, acc, fuel)
        } else {
            match spec_find_char(st.0, 0, '#') {
                None => spec_line_done(
                    lns,
                    jl.1,
                    parent,
                    files,
                    visited,
                    defines,
                    acc,
                    fuel,
                    st.0,
                ),
                Some(didx) => {
                    let tail = st.0.subrange(didx, st.0.len() as int);
                    let toks = spec_tokens(tail);
                    if toks.len() == 0 {
                        ProcOut::PErr(PErrModel::UnknownM(tail))
                    } else if toks[0] == "#include"@ {
                        if toks.len() != 2 {
                            ProcOut::PErr(PErrModel::ArgsM)
                        } else {
                            let dest = toks[1];
                            let dn = dest.len() as int;
                            if !(dn >= 2 && ((dest[0] == '"' && dest[dn - 1] == '"') || (
                            dest[0] == '<' && dest[dn - 1] == '>'))) {
                                ProcOut::PErr(PErrModel::ArgsM)
                            } else if fuel == 0 {
                                ProcOut::PSpent
                            } else {
                                match spec_run_file(
                                    dest.subrange(1, dn - 1),
                                    parent,
                                    files,
                                    visited,
                                    defines,
                                    (fuel - 1) as nat,
                                ) {
                                    ProcOut::PErr(m) => ProcOut::PErr(m),
                                    ProcOut::PSpent => ProcOut::PSpent,
                                    ProcOut::POk(sub, v3, d3, f3) => spec_line_done(
                                        lns,
                                        jl.1,
                                        parent,
                                        files,
                                        v3,
                                        d3,
                                        acc,
                                        min_nat(f3, (fuel - 1) as nat),
                                        st.0.subrange(0, didx) + sub,
                                    ),
                                }
                            }
                        }
                    } else if toks[0] == "#define"@ {
                        if toks.len() < 3 {
                            ProcOut::PErr(PErrModel::ArgsM)
                        } else {
                            let d3 = (match spec_define_match(tail, 0) {
                                Some(m) => spec_table_insert(
                                    defines,
                                    tail.subrange(m.0, m.1),
                                    DefModel::Macro(
                                        spec_param_names(tail.subrange(m.1 + 1, m.2)),
                                        tail.subrange(m.3, tail.len() as int),
                                    ),
                                ),
                                None => spec_table_insert(
                                    defines,
                                    toks[1],
                                    DefModel::Value(spec_value_text(toks, 2, Seq::empty())),
                                ),
                            });
                            spec_line_done(
                                lns,
                                jl.1,
                                parent,
                                files,
                                visited,
                                d3,
                                acc,
                                fuel,
                                st.0.subrange(0, didx),
                            )
                        }
                    } else if toks[0] == "#undef"@ {
                        if toks.len() != 2 {
                            ProcOut::PErr(PErrModel::ArgsM)
                        } else {
                            spec_line_done(
                                lns,
                                jl.1,
                                parent,
                                files,
                                visited,
                                spec_table_remove(defines, toks[1]),
                                acc,
                                fuel,
                                st.0.subrange(0, didx),
                            )
                        }
                    } else {
                        ProcOut::PErr(PErrModel::UnknownM(toks[0]))
                    }
                },
            }
        }
    }
}

/// The rest of a line once its directive (if any) has produced its text:
/// the line is substituted to a fixpoint and kept with a newline, and
/// the following lines are processed.
pub open spec fn spec_line_done(
    lns: Seq<Seq<char>>,
    next: int,
    parent: Seq<char>,
    files: Seq<(Seq<char>, FileModel)>,
    visited: Set<Seq<char>>,
    defines: Seq<(Seq<char>, DefModel)>,
    acc: Seq<char>,
    fuel: nat,
    work: Seq<char>,
) -> ProcOut
    decreases fuel, 0int, lines_gap(lns, next), 1int,
{
    match spec_fixpoint(work, defines, SUBST_FUEL as nat) {
        FixOut::FixFail(e) => ProcOut::PErr(err_of(e)),
        FixOut::FixDone(t2) => spec_run_lines(
            lns,
            next,
            false,
            parent,
            files,
            visited,
            defines,
            acc + t2 + seq!['\n'],
            fuel,
        ),
    }
}

#[via_fn]
proof fn spec_run_lines_decreases(
    lns: Seq<Seq<char>>,
    i: int,
    ib: bool,
    parent: Seq<char>,
    files: Seq<(Seq<char>, FileModel)>,
    visited: Set<Seq<char>>,
    defines: Seq<(Seq<char>, DefModel)>,
    acc: Seq<char>,
    fuel: nat,
) {
    if 0 <= i < lns.len() {
        lemma_join_from_bounds(lns, lns[i], i + 1);
    }
}

/// With no definitions in force and no `#` in any stripped line, the run
/// emits exactly the comment-free text and leaves every piece of state
/// alone.
pub proof fn lemma_clean_run_lines(
    lns: Seq<Seq<char>>,
    i: int,
    ib: bool,
    parent: Seq<char>,
    files: Seq<(Seq<char>, FileModel)>,
    visited: Set<Seq<char>>,
    defines: Seq<(Seq<char>, DefModel)>,
    acc: Seq<char>,
    fuel: nat,
)
    requires
        defines.len() == 0,
        spec_clean(lns, i, ib) is Some,
    ensures
        spec_run_lines(lns, i, ib, parent, files, visited, defines, acc, fuel) == ProcOut::POk(
            acc + spec_clean(lns, i, ib).unwrap(),
            visited,
            defines,
            fuel,
        ),
    decreases lines_gap(lns, i),
{
    if i < 0 || i >= lns.len() {
        assert(acc + spec_clean(lns, i, ib).unwrap() =~= acc);
    } else {
        let jl = spec_join_from(lns, lns[i], i + 1);
        let st = spec_strip_line(jl.0, ib);
        lemma_join_from_bounds(lns, lns[i], i + 1);
        if st.1 {
            lemma_clean_run_lines(lns, jl.1, true, parent, files, visited, defines, acc, fuel);
        } else {
            assert(spec_find_char(st.0, 0, '#') is None);
            assert(SUBST_FUEL > 0);
            crate::subst::lemma_scan_empty(st.0, 0, defines, SUBST_FUEL as nat);
            assert(spec_fixpoint(st.0, defines, SUBST_FUEL as nat) == FixOut::FixDone(st.0));
            assert(spec_run_lines(lns, i, ib, parent, files, visited, defines, acc, fuel)
                == spec_line_done(lns, jl.1, parent, files, visited, defines, acc, fuel, st.0));
            assert(spec_line_done(lns, jl.1, parent, files, visited, defines, acc, fuel, st.0)
                == spec_run_lines(
                lns,
                jl.1,
                false,
                parent,
                files,
                visited,
                defines,
                acc + st.0 + seq!['\n'],
                fuel,
            ));
            lemma_clean_run_lines(
                lns,
                jl.1,
                false,
                parent,
                files,
                visited,
                defines,
                acc + st.0 + seq!['\n'],
                fuel,
            );
            assert(spec_clean(lns, jl.1, false) is Some);
            assert(spec_clean(lns, i, ib).unwrap() == st.0 + seq!['\n'] + spec_clean(
                lns,
                jl.1,
                false,
            ).unwrap());
            assert((acc + st.0 + seq!['\n']) + spec_clean(lns, jl.1, false).unwrap() =~= acc + (
            st.0 + seq!['\n'] + spec_clean(lns, jl.1, false).unwrap()));
        }
    }
}

/// Joins one logical line beginning at physical line `i`, following the
/// trailing-backslash continuations.
fn join_logical(lines: &Vec<String>, i: usize) -> (r: (Vec<char>, usize))
    requires
        i < lines@.len(),
    ensures
        ({
            let jl = spec_join_from(views_of(lines@), views_of(lines@)[i as int], i as int + 1);
            r.0@ == jl.0 && r.1 as int == jl.1 && i + 1 <= r.1 <= lines@.len()
        }),
{
    let n = lines.len();
    let ghost lns = views_of(lines@);
    let mut line = str_to_chars(lines[i].as_str());
    let ghost jl = spec_join_from(lns, lns[i as int], i as int + 1);
    let mut k: usize = i + 1;
    proof {
        assert(line@ == lns[i as int]);
        lemma_join_from_bounds(lns, lns[i as int], i as int + 1);
    }
    loop
        invariant_except_break
            spec_join_from(lns, line@, k as int) == jl,
        invariant
            lns == views_of(lines@),
            lns.len() == lines@.len(),
            i < lns.len(),
            i + 1 <= k <= lns.len(),
        ensures
            line@ == jl.0,
            k as int == jl.1,
        decreases lns.len() - k,
    {
        if !(line.len() > 0 && line[line.len() - 1] == '\\') {
            break ;
        }
        let ghost before = line@;
        line.pop();
        proof {
            assert(line@ == before.drop_last());
        }
        if k >= lines.len() {
            break ;
        }
        let mut nx = str_to_chars(lines[k].as_str());
        proof {
            assert(nx@ == lns[k as int]);
        }
        line.append(&mut nx);
        k = k + 1;
    }
    (line, k)
}

/// Substitutes macros in the line until a pass changes nothing,
/// computing exactly `spec_fixpoint`.
fn run_fixpoint(start: Vec<char>, defines: &MacroTable) -> (r: Result<
    Vec<char>,
    PreprocessorError,
>)
    ensures
        (match spec_fixpoint(start@, defines@, SUBST_FUEL as nat) {
            FixOut::FixDone(t) => r matches Ok(v) && v@ == t,
            FixOut::FixFail(e) => r matches Err(e2) && e2 == e,
        }),
{
    let ghost w2 = start@;
    let mut work = start;
    let mut fp_fuel: usize = SUBST_FUEL;
    loop
        invariant
            w2 == start@,
            spec_fixpoint(work@, defines@, fp_fuel as nat) == spec_fixpoint(
                w2,
                defines@,
                SUBST_FUEL as nat,
            ),
        ensures
            w2 == start@,
            spec_fixpoint(w2, defines@, SUBST_FUEL as nat) == FixOut::FixDone(work@),
        decreases fp_fuel,
    {
        if fp_fuel == 0 {
            break ;
        }
        let ghost fp0 = fp_fuel as nat;
        let ghost wk0 = work@;
        fp_fuel = fp_fuel - 1;
        match subst_line(&work, defines) {
            Ok(p) => {
                let changed = p.0;
                work = p.1;
                if !changed {
                    proof {
                        assert(spec_fixpoint(wk0, defines@, fp0) == FixOut::FixDone(work@));
                    }
                    break ;
                }
                proof {
                    assert(spec_fixpoint(wk0, defines@, fp0) == spec_fixpoint(
                        work@,
                        defines@,
                        (fp0 - 1) as nat,
                    ));
                }
            },
            Err(e) => {
                proof {
                    assert(spec_fixpoint(wk0, defines@, fp0) == FixOut::FixFail(e));
                }
                return Err(e);
            },
        }
    }
    Ok(work)
}

/// What one executable run produced, carrying the fuel left.
enum RunRes {
    ROk(Vec<char>, usize),
    RErr(PreprocessorError),
    RSpent,
}

/// Processes one file, computing exactly `spec_run_file`.
#[verifier::rlimit(100)]
#[verifier::loop_isolation(false)]
fn run_file(
    fname: &Vec<char>,
    base: &Vec<char>,
    files: &FileMap,
    visited: &mut VisitedSet,
    defines: &mut MacroTable,
    fuel: usize,
) -> (r: RunRes)
    requires
        old(defines).wf(),
    ensures
        final(defines).wf(),
        forall|q: Seq<char>| old(visited)@.contains(q) ==> final(visited)@.contains(q),
        final(visited)@.contains(spec_path_join(base@, fname@)),
        (match r {
            RunRes::ROk(v, f) => spec_run_file(
                fname@,
                base@,
                files@,
                old(visited)@,
                old(defines)@,
                fuel as nat,
            ) == ProcOut::POk(v@, final(visited)@, final(defines)@, f as nat) && f <= fuel,
            RunRes::RErr(e) => spec_run_file(
                fname@,
                base@,
                files@,
                old(visited)@,
                old(defines)@,
                fuel as nat,
            ) == ProcOut::PErr(err_of(e)),
            RunRes::RSpent => spec_run_file(
                fname@,
                base@,
                files@,
                old(visited)@,
                old(defines)@,
                fuel as nat,
            ) == ProcOut::PSpent,
        }),
    decreases fuel,
{
    let ghost total = spec_run_file(fname@, base@, files@, old(visited)@, old(defines)@, fuel as nat);
    let path = path_join(base, fname);
    let parent = parent_dir(&path);
    if visited.contains(&path) {
        let out: Vec<char> = Vec::new();
        proof {
            assert(out@ =~= Seq::<char>::empty());
        }
        return RunRes::ROk(out, fuel);
    }
    visited.insert(crate::subst::copy_chars(&path));
    let lines = match files.get(&path) {
        Option::None => {
            return RunRes::RErr(PreprocessorError::FileNotFound(chars_to_string(fname)));
        },
        Option::Some(FileEntry::NotUtf8) => {
            return RunRes::RErr(PreprocessorError::FileNotValidUtf8(chars_to_string(fname)));
        },
        Option::Some(FileEntry::Text(ls)) => ls,
    };
    let ghost lns = views_of(lines@);
    proof {
        assert(spec_file_lookup(files@, path@) == Some(FileModel::Text(lns)));
    }
    let mut contents: Vec<char> = Vec::new();
    let mut i: usize = 0;
    let mut in_block: bool = false;
    let mut fl: usize = fuel;
    proof {
        assert(contents@ =~= Seq::<char>::empty());
    }
    loop
        invariant
            defines.wf(),
            fl <= fuel,
            visited@.contains(path@),
            forall|q: Seq<char>| old(visited)@.contains(q) ==> visited@.contains(q),
            spec_run_lines(
                lns,
                i as int,
                in_block,
                parent@,
                files@,
                visited@,
                defines@,
                contents@,
                fl as nat,
            ) == total,
        decreases fl, 0int, lines_gap(lns, i as int), 1int,
    {
        if i >= lines.len() {
            return RunRes::ROk(contents, fl);
        }
        let ghost i0 = i as int;
        let ghost ib0 = in_block;
        let ghost v0i = visited@;
        let ghost d0i = defines@;
        let ghost c0 = contents@;
        let ghost fl0 = fl as nat;
        // join continuation lines into one logical line
        let ghost jl = spec_join_from(lns, lns[i as int], i as int + 1);
        let (line, k) = join_logical(lines, i);
        // strip comments; a line still inside a block comment is dropped
        let (stripped, nb) = strip_line_chars(&line, in_block);
        let ghost st = spec_strip_line(jl.0, in_block);
        in_block = nb;
        if nb {
            proof {
                lemma_join_from_bounds(lns, lns[i as int], i as int + 1);
            }
            i = k;
            continue ;
        }
        proof {
            lemma_join_from_bounds(lns, lns[i as int], i as int + 1);
        }
        let mut work = stripped;
        // directives: the first `#` anywhere begins one
        match find_char(&work, 0, '#') {
            Option::None => {
                proof {
                    assert(spec_run_lines(lns, i0, ib0, parent@, files@, v0i, d0i, c0, fl0)
                        == spec_line_done(
                        lns,
                        jl.1,
                        parent@,
                        files@,
                        visited@,
                        defines@,
                        c0,
                        fl as nat,
                        st.0,
                    ));
                }
            },
            Option::Some(didx) => {
                let tail = subvec(&work, didx, work.len());
                let args = directive_tokens(&tail);
                proof {
                    assert(tail@ == st.0.subrange(didx as int, st.0.len() as int));
                    assert(views_of(args@) == spec_tokens(tail@));
                }
                let mut content: Vec<char> = Vec::new();
                if args.len() == 0 {
                    proof {
                        assert(total == ProcOut::PErr(PErrModel::UnknownM(tail@)));
                    }
                    return RunRes::RErr(
                        PreprocessorError::UnknownDirective(chars_to_string(&tail)),
                    );
                }
                let inc_kw = str_to_chars("#include");
                let def_kw = str_to_chars("#define");
                let undef_kw = str_to_chars("#undef");
                if crate::text::chars_eq(&args[0], &inc_kw) {
                    if args.len() != 2 {
                        proof {
                            assert(total == ProcOut::PErr(PErrModel::ArgsM));
                        }
                        return RunRes::RErr(PreprocessorError::IncludeIncorrectArgs);
                    }
                    let dest = &args[1];
                    let dn = dest.len();
                    let wrapped = dn >= 2 && ((dest[0] == '"' && dest[dn - 1] == '"') || (
                    dest[0] == '<' && dest[dn - 1] == '>'));
                    if !wrapped {
                        proof {
                            assert(total == ProcOut::PErr(PErrModel::ArgsM));
                        }
                        return RunRes::RErr(PreprocessorError::IncludeIncorrectArgs);
                    }
                    let inner = subvec(dest, 1, dn - 1);
                    if fl == 0 {
                        return RunRes::RSpent;
                    }
                    match run_file(&inner, &parent, files, visited, defines, fl - 1) {
                        RunRes::ROk(sub, f3) => {
                            content = sub;
                            fl = if f3 <= fl - 1 {
                                f3
                            } else {
                                fl - 1
                            };
                            proof {
                                assert(spec_run_lines(
                                    lns,
                                    i0,
                                    ib0,
                                    parent@,
                                    files@,
                                    v0i,
                                    d0i,
                                    c0,
                                    fl0,
                                ) == spec_line_done(
                                    lns,
                                    jl.1,
                                    parent@,
                                    files@,
                                    visited@,
                                    defines@,
                                    c0,
                                    fl as nat,
                                    st.0.subrange(0, didx as int) + content@,
                                ));
                            }
                        },
                        RunRes::RErr(e) => {
                            proof {
                                assert(total == ProcOut::PErr(err_of(e)));
                            }
                            return RunRes::RErr(e);
                        },
                        RunRes::RSpent => {
                            proof {
                                assert(total == ProcOut::PSpent);
                            }
                            return RunRes::RSpent;
                        },
                    }
                } else if crate::text::chars_eq(&args[0], &def_kw) {
                    if args.len() < 3 {
                        proof {
                            assert(total == ProcOut::PErr(PErrModel::ArgsM));
                        }
                        return RunRes::RErr(PreprocessorError::IncludeIncorrectArgs);
                    }
                    match find_define(&tail) {
                        Option::Some(m) => {
                            let name = subvec(&tail, m.0, m.1);
                            let ptext = subvec(&tail, m.1 + 1, m.2);
                            let body = subvec(&tail, m.3, tail.len());
                            let params = split_params(&ptext);
                            defines.insert(name, Definition::Macro(params, body));
                            proof {
                                assert(spec_run_lines(
                                    lns,
                                    i0,
                                    ib0,
                                    parent@,
                                    files@,
                                    v0i,
                                    d0i,
                                    c0,
                                    fl0,
                                ) == spec_line_done(
                                    lns,
                                    jl.1,
                                    parent@,
                                    files@,
                                    visited@,
                                    defines@,
                                    c0,
                                    fl as nat,
                                    st.0.subrange(0, didx as int),
                                ));
                            }
                        },
                        Option::None => {
                            let name = crate::subst::copy_chars(&args[1]);
                            let mut value: Vec<char> = Vec::new();
                            let ghost toksv = spec_tokens(tail@);
                            let mut j: usize = 2;
                            proof {
                                assert(value@ =~= Seq::<char>::empty());
                            }
                            while j < args.len()
                                invariant
                                    2 <= j <= args@.len(),
                                    spec_value_text(toksv, j as int, value@) == spec_value_text(
                                        toksv,
                                        2,
                                        Seq::empty(),
                                    ),
                                decreases args@.len() - j,
                            {
                                let ghost prev = value@;
                                if j > 2 {
                                    value.push(' ');
                                }
                                let mut piece = crate::subst::copy_chars(&args[j]);
                                value.append(&mut piece);
                                proof {
                                    if j > 2 {
                                        assert(value@ =~= prev + seq![' '] + toksv[j as int]);
                                    } else {
                                        assert(value@ =~= prev + Seq::<char>::empty()
                                            + toksv[j as int]);
                                    }
                                }
                                j = j + 1;
                            }
                            defines.insert(name, Definition::Value(value));
                            proof {
                                assert(spec_run_lines(
                                    lns,
                                    i0,
                                    ib0,
                                    parent@,
                                    files@,
                                    v0i,
                                    d0i,
                                    c0,
                                    fl0,
                                ) == spec_line_done(
                                    lns,
                                    jl.1,
                                    parent@,
                                    files@,
                                    visited@,
                                    defines@,
                                    c0,
                                    fl as nat,
                                    st.0.subrange(0, didx as int),
                                ));
                            }
                        },
                    }
                } else if crate::text::chars_eq(&args[0], &undef_kw) {
                    if args.len() != 2 {
                        proof {
                            assert(total == ProcOut::PErr(PErrModel::ArgsM));
                        }
                        return RunRes::RErr(PreprocessorError::IncludeIncorrectArgs);
                    }
                    defines.remove(&args[1]);
                    proof {
                        assert(spec_run_lines(lns, i0, ib0, parent@, files@, v0i, d0i, c0, fl0)
                            == spec_line_done(
                            lns,
                            jl.1,
                            parent@,
                            files@,
                            visited@,
                            defines@,
                            c0,
                            fl as nat,
                            st.0.subrange(0, didx as int),
                        ));
                    }
                } else {
                    proof {
                        assert(total == ProcOut::PErr(PErrModel::UnknownM(views_of(args@)[0])));
                    }
                    return RunRes::RErr(
                        PreprocessorError::UnknownDirective(chars_to_string(&args[0])),
                    );
                }
                work = splice(&work, didx, work.len(), &content);
                proof {
                    assert(work@ =~= st.0.subrange(0, didx as int) + content@);
                    if content@.len() == 0 {
                        assert(work@ =~= st.0.subrange(0, didx as int));
                    }
                }
            },
        }
        proof {
            assert(st.0.subrange(0, st.0.len() as int) =~= st.0);
        }
        // expand macros until nothing changes
        let ghost w2 = work@;
        proof {
            assert(spec_run_lines(lns, i0, ib0, parent@, files@, v0i, d0i, c0, fl0)
                == spec_line_done(
                lns,
                jl.1,
                parent@,
                files@,
                visited@,
                defines@,
                c0,
                fl as nat,
                w2,
            ));
        }
        let mut expanded = match run_fixpoint(work, defines) {
            Ok(v) => v,
            Err(e) => {
                proof {
                    assert(total == ProcOut::PErr(err_of(e)));
                }
                return RunRes::RErr(e);
            },
        };
        let ghost wv = expanded@;
        let ghost pre_contents = contents@;
        contents.append(&mut expanded);
        contents.push('\n');
        proof {
            assert(contents@ =~= pre_contents + wv + seq!['\n']);
            assert(spec_line_done(
                lns,
                jl.1,
                parent@,
                files@,
                visited@,
                defines@,
                c0,
                fl as nat,
                w2,
            ) == spec_run_lines(
                lns,
                jl.1,
                false,
                parent@,
                files@,
                visited@,
                defines@,
                c0 + wv + seq!['\n'],
                fl as nat,
            ));
        }
        i = k;
    }
}

/// Processes one file against the map, with a fresh include budget:
/// resolves it against the visited set, runs its lines, and leaves the
/// shared state as `spec_run_file` fixes it. The joined path is in the
/// visited set afterwards, which only ever grows; a file whose stripped
/// lines hold no `#`, processed with no definitions in force, comes out
/// exactly as its comment-free text, with the table still empty.
pub fn preprocess_file(
    filename: &Vec<char>,
    basepath: &Vec<char>,
    files: &FileMap,
    visited: &mut VisitedSet,
    defines: &mut MacroTable,
) -> (r: Result<Vec<char>, PreprocessorError>)
    requires
        old(defines).wf(),
    ensures
        final(defines).wf(),
        forall|q: Seq<char>| old(visited)@.contains(q) ==> final(visited)@.contains(q),
        final(visited)@.contains(spec_path_join(basepath@, filename@)),
        (match spec_run_file(
            filename@,
            basepath@,
            files@,
            old(visited)@,
            old(defines)@,
            RUN_FUEL as nat,
        ) {
            ProcOut::POk(t, v2, d2, _f) => r matches Ok(s) && s@ == t && final(visited)@ == v2
                && final(defines)@ == d2,
            ProcOut::PErr(m) => r matches Err(e) && err_of(e) == m,
            ProcOut::PSpent => true,
        }),
        ({
            let path = spec_path_join(basepath@, filename@);
            &&& (old(visited)@.contains(path) ==> (r matches Ok(s) && s@ == Seq::<char>::empty()))
            &&& (!old(visited)@.contains(path) && spec_file_lookup(files@, path) is None ==> (
            r matches Err(e) && e matches PreprocessorError::FileNotFound(n) && n@ == filename@))
            &&& (!old(visited)@.contains(path) && spec_file_lookup(files@, path) == Some(
                FileModel::NotUtf8,
            ) ==> (r matches Err(e) && e matches PreprocessorError::FileNotValidUtf8(n) && n@
                == filename@))
            &&& (spec_file_lookup(files@, path) matches Some(FileModel::Text(lns2))
                ==> ((!old(visited)@.contains(path) && old(defines)@.len() == 0
                && spec_clean(lns2, 0, false) is Some)
                ==> (r matches Ok(s) && s@ == spec_clean(lns2, 0, false).unwrap()
                && final(defines)@.len() == 0)))
        }),
{
    proof {
        let path = spec_path_join(basepath@, filename@);
        if !old(visited)@.contains(path) && old(defines)@.len() == 0 {
            match spec_file_lookup(files@, path) {
                Some(FileModel::Text(lns2)) => {
                    if spec_clean(lns2, 0, false) is Some {
                        lemma_clean_run_lines(
                            lns2,
                            0,
                            false,
                            spec_parent_dir(path),
                            files@,
                            old(visited)@.insert(path),
                            old(defines)@,
                            Seq::empty(),
                            RUN_FUEL as nat,
                        );
                        assert(Seq::<char>::empty() + spec_clean(lns2, 0, false).unwrap()
                            =~= spec_clean(lns2, 0, false).unwrap());
                    }
                },
                _ => {},
            }
        }
    }
    match run_file(filename, basepath, files, visited, defines, RUN_FUEL) {
        RunRes::ROk(v, _f) => Ok(v),
        RunRes::RErr(e) => Err(e),
        RunRes::RSpent => Ok(Vec::new()),
    }
}

/// Preprocesses the file `filename` against the base directory, reading
/// every file from the given map, and gives the fully expanded text or
/// the first error met, exactly as `spec_run_file` fixes them from a
/// fresh visited set and an empty table. In particular a missing root
/// file is not found, a root file whose bytes are not text fails as
/// such, and a root file whose stripped logical lines hold no `#` at all
/// comes out exactly as its comment-free text: continuations joined,
/// comments removed, each kept line ended with a newline.
pub fn preprocess(filename: &str, basepath: &str, files: &FileMap) -> (r: Result<
    String,
    PreprocessorError,
>)
    ensures
        (match spec_run_file(
            filename@,
            basepath@,
            files@,
            Set::empty(),
            Seq::empty(),
            RUN_FUEL as nat,
        ) {
            ProcOut::POk(t, _v2, _d2, _f) => r matches Ok(s) && s@ == t,
            ProcOut::PErr(m) => r matches Err(e) && err_of(e) == m,
            ProcOut::PSpent => true,
        }),
        ({
            let path = spec_path_join(basepath@, filename@);
            &&& (spec_file_lookup(files@, path) is None ==> (r matches Err(e)
                && e matches PreprocessorError::FileNotFound(n) && n@ == filename@))
            &&& (spec_file_lookup(files@, path) == Some(FileModel::NotUtf8) ==> (r matches Err(e)
                && e matches PreprocessorError::FileNotValidUtf8(n) && n@ == filename@))
            &&& (spec_file_lookup(files@, path) matches Some(FileModel::Text(lns2))
                ==> (spec_clean(lns2, 0, false) is Some ==> (r matches Ok(s) && s@ == spec_clean(
                lns2,
                0,
                false,
            ).unwrap())))
        }),
{
    let fname = str_to_chars(filename);
    let bpath = str_to_chars(basepath);
    let mut visited = VisitedSet::new();
    let mut defines = MacroTable::new();
    proof {
        assert(defines@ =~= Seq::<(Seq<char>, DefModel)>::empty());
    }
    match preprocess_file(&fname, &bpath, files, &mut visited, &mut defines) {
        Ok(out) => Ok(chars_to_string(&out)),
        Err(e) => Err(e),
    }
}

} // verus!
