//! Text scanning: identifier recognition, whitespace trimming, token
//! splitting, and the pattern that recognises a function-like `#define`.
//!
//! An identifier token is found by a leftmost scan; at each position the
//! first shape wins: an identifier-start character (underscore or
//! `XID_Start`) followed by one or more `XID_Continue` characters, else a
//! lone `XID_Start` character. A lone underscore is no identifier.
use vstd::prelude::*;

use crate::chars::{
    char_is_ident_start, char_is_white_space, char_is_xid_continue, char_is_xid_start,
    ident_start, white_space, xid_continue, xid_start,
};
use crate::text::subvec;

verus! {

/// The end of the run of `XID_Continue` characters beginning at `j`.
pub open spec fn spec_cont_end(s: Seq<char>, j: int) -> int
    decreases s.len() - j,
{
    if 0 <= j && j < s.len() && xid_continue(s[j]) {
        spec_cont_end(s, j + 1)
    } else {
        j
    }
}

/// The end of the identifier token at position `p`, if one begins there.
pub open spec fn spec_match_at(s: Seq<char>, p: int) -> Option<int> {
    if 0 <= p && p < s.len() {
        if ident_start(s[p]) && p + 1 < s.len() && xid_continue(s[p + 1]) {
            Some(spec_cont_end(s, p + 1))
        } else if xid_start(s[p]) {
            Some(p + 1)
        } else {
            None
        }
    } else {
        None
    }
}

/// The first identifier token at or after `from`: its start and end.
pub open spec fn spec_find_ident(s: Seq<char>, from: int) -> Option<(int, int)>
    decreases s.len() - from,
{
    if from >= s.len() {
        None
    } else {
        match spec_match_at(s, from) {
            Some(e) => Some((from, e)),
            None => spec_find_ident(s, from + 1),
        }
    }
}

/// The end of the identifier token at `p`, or nothing.
fn match_at(v: &Vec<char>, p: usize) -> (r: Option<usize>)
    requires
        p < v@.len(),
    ensures
        match r {
            Some(e) => p < e <= v@.len() && spec_match_at(v@, p as int) == Some(e as int),
            None => spec_match_at(v@, p as int) is None,
        },
{
    let n = v.len();
    if char_is_ident_start(v[p]) && p + 1 < n && char_is_xid_continue(v[p + 1]) {
        let mut e: usize = p + 1;
        while e < v.len() && char_is_xid_continue(v[e])
            invariant
                p + 1 <= e <= v@.len(),
                spec_cont_end(v@, p + 1) == spec_cont_end(v@, e as int),
            decreases v@.len() - e,
        {
            e = e + 1;
        }
        Some(e)
    } else if char_is_xid_start(v[p]) {
        Some(p + 1)
    } else {
        None
    }
}

/// The first identifier token at or after `from`, as its start and end.
pub fn find_ident(v: &Vec<char>, from: usize) -> (r: Option<(usize, usize)>)
    requires
        from <= v@.len(),
    ensures
        match r {
            Some(se) => from <= se.0 && se.0 < se.1 <= v@.len() && spec_find_ident(
                v@,
                from as int,
            ) == Some((se.0 as int, se.1 as int)),
            None => spec_find_ident(v@, from as int) is None,
        },
{
    let mut p: usize = from;
    while p < v.len()
        invariant
            from <= p <= v@.len(),
            spec_find_ident(v@, from as int) == spec_find_ident(v@, p as int),
        decreases v@.len() - p,
    {
        match match_at(v, p) {
            Some(e) => {
                return Some((p, e));
            },
            None => {
                p = p + 1;
            },
        }
    }
    None
}

/// The end of the run of white-space characters beginning at `j`.
pub open spec fn spec_ws_end(s: Seq<char>, j: int) -> int
    decreases s.len() - j,
{
    if 0 <= j && j < s.len() && white_space(s[j]) {
        spec_ws_end(s, j + 1)
    } else {
        j
    }
}

fn ws_end(v: &Vec<char>, j: usize) -> (r: usize)
    requires
        j <= v@.len(),
    ensures
        j <= r <= v@.len(),
        r as int == spec_ws_end(v@, j as int),
{
    let mut e: usize = j;
    while e < v.len() && char_is_white_space(v[e])
        invariant
            j <= e <= v@.len(),
            spec_ws_end(v@, j as int) == spec_ws_end(v@, e as int),
        decreases v@.len() - e,
    {
        e = e + 1;
    }
    e
}

/// The start of the run of white-space characters ending at `j`.
pub open spec fn spec_ws_start(s: Seq<char>, j: int) -> int
    decreases j,
{
    if 0 < j && j <= s.len() && white_space(s[j - 1]) {
        spec_ws_start(s, j - 1)
    } else {
        j
    }
}

pub proof fn lemma_ws_start_bounds(s: Seq<char>, j: int)
    requires
        0 <= j <= s.len(),
    ensures
        0 <= spec_ws_start(s, j) <= j,
    decreases j,
{
    if 0 < j && white_space(s[j - 1]) {
        lemma_ws_start_bounds(s, j - 1);
    }
}

/// The line with surrounding white space removed, as `str::trim` leaves it.
pub open spec fn spec_trim(s: Seq<char>) -> Seq<char> {
    let a = spec_ws_end(s, 0);
    let b = spec_ws_start(s, s.len() as int);
    if a <= b {
        s.subrange(a, b)
    } else {
        Seq::empty()
    }
}

pub fn trim(v: &Vec<char>) -> (r: Vec<char>)
    ensures
        r@ == spec_trim(v@),
{
    let a = ws_end(v, 0);
    let mut b: usize = v.len();
    while b > 0 && char_is_white_space(v[b - 1])
        invariant
            0 <= b <= v@.len(),
            spec_ws_start(v@, v@.len() as int) == spec_ws_start(v@, b as int),
        decreases b,
    {
        b = b - 1;
    }
    proof {
        lemma_ws_start_bounds(v@, b as int);
    }
    if a <= b {
        subvec(v, a, b)
    } else {
        Vec::new()
    }
}

/// The first position at or after `from` holding the character `c`.
pub open spec fn spec_find_char(s: Seq<char>, from: int, c: char) -> Option<int>
    decreases s.len() - from,
{
    if from >= s.len() {
        None
    } else if 0 <= from && s[from] == c {
        Some(from)
    } else {
        spec_find_char(s, from + 1, c)
    }
}

pub fn find_char(v: &Vec<char>, from: usize, c: char) -> (r: Option<usize>)
    requires
        from <= v@.len(),
    ensures
        match r {
            Some(j) => from <= j < v@.len() && spec_find_char(v@, from as int, c) == Some(
                j as int,
            ),
            None => spec_find_char(v@, from as int, c) is None,
        },
{
    let mut i: usize = from;
    while i < v.len()
        invariant
            from <= i <= v@.len(),
            spec_find_char(v@, from as int, c) == spec_find_char(v@, i as int, c),
        decreases v@.len() - i,
    {
        if v[i] == c {
            return Some(i);
        }
        i = i + 1;
    }
    None
}

pub proof fn lemma_find_char_bounds(s: Seq<char>, from: int, c: char)
    requires
        0 <= from,
        spec_find_char(s, from, c) is Some,
    ensures
        from <= spec_find_char(s, from, c).unwrap() < s.len(),
    decreases s.len() - from,
{
    if from < s.len() && s[from] != c {
        lemma_find_char_bounds(s, from + 1, c);
    }
}

/// The directive's argument tokens from position `pos` on: the pieces
/// between single space characters, those made of nothing but white space
/// left out, the rest kept as written.
pub open spec fn spec_tokens_from(s: Seq<char>, pos: int) -> Seq<Seq<char>>
    decreases s.len() - pos,
    via spec_tokens_from_decreases
{
    if !(0 <= pos && pos <= s.len()) {
        Seq::empty()
    } else {
        match spec_find_char(s, pos, ' ') {
            None => {
                let piece = s.subrange(pos, s.len() as int);
                if spec_trim(piece).len() == 0 {
                    Seq::empty()
                } else {
                    seq![piece]
                }
            },
            Some(k) => {
                let piece = s.subrange(pos, k);
                let rest = spec_tokens_from(s, k + 1);
                if spec_trim(piece).len() == 0 {
                    rest
                } else {
                    seq![piece] + rest
                }
            },
        }
    }
}

#[via_fn]
proof fn spec_tokens_from_decreases(s: Seq<char>, pos: int) {
    if 0 <= pos && pos <= s.len() && spec_find_char(s, pos, ' ') is Some {
        lemma_find_char_bounds(s, pos, ' ');
    }
}

/// The directive's argument tokens.
pub open spec fn spec_tokens(s: Seq<char>) -> Seq<Seq<char>> {
    spec_tokens_from(s, 0)
}

/// Splits a line into its directive tokens.
pub fn directive_tokens(v: &Vec<char>) -> (r: Vec<Vec<char>>)
    ensures
        crate::table::views_of(r@) == spec_tokens(v@),
{
    let n = v.len();
    let mut out: Vec<Vec<char>> = Vec::new();
    let mut pos: usize = 0;
    loop
        invariant
            n == v@.len(),
            pos <= v@.len(),
            crate::table::views_of(out@) + spec_tokens_from(v@, pos as int) == spec_tokens(v@),
        decreases v@.len() - pos,
    {
        match find_char(v, pos, ' ') {
            Some(k) => {
                let piece = subvec(v, pos, k);
                let t = trim(&piece);
                let ghost prev = out@;
                if t.len() > 0 {
                    out.push(piece);
                    proof {
                        assert(crate::table::views_of(out@) =~= crate::table::views_of(prev)
                            + seq![v@.subrange(pos as int, k as int)]);
                    }
                }
                pos = k + 1;
            },
            None => {
                let piece = subvec(v, pos, v.len());
                let t = trim(&piece);
                let ghost prev = out@;
                if t.len() > 0 {
                    out.push(piece);
                    proof {
                        assert(crate::table::views_of(out@) =~= crate::table::views_of(prev)
                            + seq![v@.subrange(pos as int, v@.len() as int)]);
                    }
                }
                proof {
                    assert(crate::table::views_of(out@) =~= spec_tokens(v@));
                }
                return out;
            },
        }
    }
}

/// The parameter names of a function-like `#define`: the text between the
/// parentheses split at every comma, each piece trimmed of white space.
pub open spec fn spec_params_from(s: Seq<char>, pos: int) -> Seq<Seq<char>>
    decreases s.len() - pos,
    via spec_params_from_decreases
{
    if !(0 <= pos && pos <= s.len()) {
        Seq::empty()
    } else {
        match spec_find_char(s, pos, ',') {
            None => seq![spec_trim(s.subrange(pos, s.len() as int))],
            Some(k) => seq![spec_trim(s.subrange(pos, k))] + spec_params_from(s, k + 1),
        }
    }
}

#[via_fn]
proof fn spec_params_from_decreases(s: Seq<char>, pos: int) {
    if 0 <= pos && pos <= s.len() && spec_find_char(s, pos, ',') is Some {
        lemma_find_char_bounds(s, pos, ',');
    }
}

/// The parameter names written in `s`.
pub open spec fn spec_param_names(s: Seq<char>) -> Seq<Seq<char>> {
    spec_params_from(s, 0)
}

/// Splits a parameter list at its commas and trims each name.
pub fn split_params(v: &Vec<char>) -> (r: Vec<Vec<char>>)
    ensures
        crate::table::views_of(r@) == spec_param_names(v@),
{
    let n = v.len();
    let mut out: Vec<Vec<char>> = Vec::new();
    let mut pos: usize = 0;
    loop
        invariant
            n == v@.len(),
            pos <= v@.len(),
            crate::table::views_of(out@) + spec_params_from(v@, pos as int) == spec_param_names(
                v@,
            ),
        decreases v@.len() - pos,
    {
        match find_char(v, pos, ',') {
            Some(k) => {
                let piece = subvec(v, pos, k);
                let ghost prev = out@;
                out.push(trim(&piece));
                proof {
                    assert(crate::table::views_of(out@) =~= crate::table::views_of(prev) + seq![
                        spec_trim(v@.subrange(pos as int, k as int)),
                    ]);
                }
                pos = k + 1;
            },
            None => {
                let piece = subvec(v, pos, v.len());
                let ghost prev = out@;
                out.push(trim(&piece));
                proof {
                    assert(crate::table::views_of(out@) =~= crate::table::views_of(prev) + seq![
                        spec_trim(v@.subrange(pos as int, v@.len() as int)),
                    ]);
                    assert(crate::table::views_of(out@) =~= spec_param_names(v@));
                }
                return out;
            },
        }
    }
}

/// Where the parameter list of a function-like `#define` ends, scanning one
/// character at a time: inside a name, a continue character extends it and a
/// comma opens the next slot; after a comma, white space and further commas
/// are allowed and an identifier-start character opens the next name.
pub open spec fn spec_params_end(s: Seq<char>, j: int, after_comma: bool) -> int
    decreases s.len() - j,
{
    if !(0 <= j && j < s.len()) {
        j
    } else if after_comma {
        if s[j] == ',' || white_space(s[j]) {
            spec_params_end(s, j + 1, true)
        } else if ident_start(s[j]) {
            spec_params_end(s, j + 1, false)
        } else {
            j
        }
    } else {
        if s[j] == ',' {
            spec_params_end(s, j + 1, true)
        } else if xid_continue(s[j]) {
            spec_params_end(s, j + 1, false)
        } else {
            j
        }
    }
}

fn params_end(v: &Vec<char>, j: usize) -> (r: usize)
    requires
        j <= v@.len(),
    ensures
        j <= r <= v@.len(),
        r as int == spec_params_end(v@, j as int, false),
{
    let mut e: usize = j;
    let mut ac: bool = false;
    loop
        invariant
            j <= e <= v@.len(),
            spec_params_end(v@, j as int, false) == spec_params_end(v@, e as int, ac),
        decreases v@.len() - e,
    {
        if e >= v.len() {
            return e;
        }
        let c = v[e];
        if ac {
            if c == ',' || char_is_white_space(c) {
                e = e + 1;
            } else if char_is_ident_start(c) {
                e = e + 1;
                ac = false;
            } else {
                return e;
            }
        } else {
            if c == ',' {
                e = e + 1;
                ac = true;
            } else if char_is_xid_continue(c) {
                e = e + 1;
            } else {
                return e;
            }
        }
    }
}

/// The function-like `#define` pattern beginning at `p`, if it matches
/// there: an identifier, an opening parenthesis, a parameter list, the
/// closing parenthesis, at least one white-space character, then the body.
/// Gives the name's end, the closing parenthesis, and the body's start.
pub open spec fn spec_define_at(s: Seq<char>, p: int) -> Option<(int, int, int)> {
    match spec_match_at(s, p) {
        None => None,
        Some(ne) => if ne < s.len() && s[ne] == '(' && ne + 1 < s.len() && ident_start(
            s[ne + 1],
        ) {
            let pe = spec_params_end(s, ne + 2, false);
            if pe < s.len() && s[pe] == ')' && pe + 1 < s.len() && white_space(s[pe + 1]) {
                Some((ne, pe, spec_ws_end(s, pe + 2)))
            } else {
                None
            }
        } else {
            None
        },
    }
}

/// The first position where the function-like `#define` pattern matches,
/// with the name's end, the closing parenthesis, and the body's start.
pub open spec fn spec_define_match(s: Seq<char>, p: int) -> Option<(int, int, int, int)>
    decreases s.len() - p,
{
    if p >= s.len() {
        None
    } else {
        match spec_define_at(s, p) {
            Some(t) => Some((p, t.0, t.1, t.2)),
            None => spec_define_match(s, p + 1),
        }
    }
}

fn define_at(v: &Vec<char>, p: usize) -> (r: Option<(usize, usize, usize)>)
    requires
        p < v@.len(),
    ensures
        match r {
            Some(t) => p < t.0 && t.0 + 1 < t.1 && t.1 + 1 < t.2 && t.2 <= v@.len()
                && spec_define_at(v@, p as int) == Some((t.0 as int, t.1 as int, t.2 as int)),
            None => spec_define_at(v@, p as int) is None,
        },
{
    let n = v.len();
    match match_at(v, p) {
        None => None,
        Some(ne) => {
            if ne < n && v[ne] == '(' && ne + 1 < n && char_is_ident_start(v[ne + 1]) {
                let pe = params_end(v, ne + 2);
                if pe < n && v[pe] == ')' && pe + 1 < n && char_is_white_space(v[pe + 1]) {
                    let bs = ws_end(v, pe + 2);
                    Some((ne, pe, bs))
                } else {
                    None
                }
            } else {
                None
            }
        },
    }
}

/// Finds the first function-like `#define` pattern in the line: the name's
/// start and end, the closing parenthesis, and the body's start.
pub fn find_define(v: &Vec<char>) -> (r: Option<(usize, usize, usize, usize)>)
    ensures
        match r {
            Some(t) => t.0 < t.1 && t.1 + 1 < t.2 && t.2 + 1 < t.3 && t.3 <= v@.len()
                && spec_define_match(v@, 0) == Some(
                (t.0 as int, t.1 as int, t.2 as int, t.3 as int),
            ),
            None => spec_define_match(v@, 0) is None,
        },
{
    let mut p: usize = 0;
    while p < v.len()
        invariant
            p <= v@.len(),
            spec_define_match(v@, 0) == spec_define_match(v@, p as int),
        decreases v@.len() - p,
    {
        match define_at(v, p) {
            Some(t) => {
                return Some((p, t.0, t.1, t.2));
            },
            None => {
                p = p + 1;
            },
        }
    }
    None
}

} // verus!
