//! The comment stripper: turns one logical line into comment-free text,
//! carrying the block-comment state across line boundaries.
use vstd::prelude::*;

use crate::text::{chars_to_string, find2, spec_find2, splice, str_to_chars, subvec};

verus! {

proof fn lemma_find2_bounds(s: Seq<char>, from: int, c0: char, c1: char)
    requires
        0 <= from,
        spec_find2(s, from, c0, c1) is Some,
    ensures
        from <= spec_find2(s, from, c0, c1).unwrap(),
        spec_find2(s, from, c0, c1).unwrap() + 1 < s.len(),
    decreases s.len() - from,
{
    if !(from + 1 >= s.len()) && !(s[from] == c0 && s[from + 1] == c1) {
        lemma_find2_bounds(s, from + 1, c0, c1);
    }
}

/// Removes every complete block comment: repeatedly, the first `/*` and
/// the first `*/` after it vanish together with everything between them.
pub open spec fn spec_remove_blocks(s: Seq<char>) -> Seq<char>
    decreases s.len(),
    via spec_remove_blocks_decreases
{
    match spec_find2(s, 0, '/', '*') {
        None => s,
        Some(b) => match spec_find2(s, b + 2, '*', '/') {
            None => s,
            Some(e) => spec_remove_blocks(
                s.subrange(0, b) + s.subrange(e + 2, s.len() as int),
            ),
        },
    }
}

#[via_fn]
proof fn spec_remove_blocks_decreases(s: Seq<char>) {
    if spec_find2(s, 0, '/', '*') is Some {
        let b = spec_find2(s, 0, '/', '*').unwrap();
        lemma_find2_bounds(s, 0, '/', '*');
        if spec_find2(s, b + 2, '*', '/') is Some {
            lemma_find2_bounds(s, b + 2, '*', '/');
        }
    }
}

/// Stripping once no pending block comment is open: complete block
/// comments vanish, then everything from the first `//` on; an unmatched
/// `/*` puts the next line inside a block comment.
pub open spec fn spec_strip_rest(l1: Seq<char>) -> (Seq<char>, bool) {
    let l2 = spec_remove_blocks(l1);
    match spec_find2(l2, 0, '/', '/') {
        Some(c) => (l2.subrange(0, c), false),
        None => if spec_find2(l2, 0, '/', '*') is Some {
            (l2, true)
        } else {
            (l2, false)
        },
    }
}

/// One logical line of comment stripping: the comment-free text and
/// whether the next line starts inside a block comment. Inside a block
/// comment, a line without the closing `*/` is left alone and the state
/// stays; the caller discards such a line.
pub open spec fn spec_strip_line(line: Seq<char>, in_block: bool) -> (Seq<char>, bool) {
    if in_block {
        match spec_find2(line, 0, '*', '/') {
            None => (line, true),
            Some(c) => spec_strip_rest(line.subrange(c + 2, line.len() as int)),
        }
    } else {
        spec_strip_rest(line)
    }
}

/// Strips comments from one logical line held as characters.
pub fn strip_line_chars(v: &Vec<char>, in_block: bool) -> (r: (Vec<char>, bool))
    ensures
        r.0@ == spec_strip_line(v@, in_block).0,
        r.1 == spec_strip_line(v@, in_block).1,
{
    let n = v.len();
    let mut cur: Vec<char>;
    if in_block {
        match find2(v, 0, '*', '/') {
            None => {
                return (subvec(v, 0, n), true);
            },
            Some(c) => {
                cur = subvec(v, c + 2, n);
            },
        }
    } else {
        cur = subvec(v, 0, v.len());
        proof {
            assert(cur@ =~= v@);
        }
    }
    let ghost l1 = cur@;
    let empty: Vec<char> = Vec::new();
    loop
        invariant
            empty@ == Seq::<char>::empty(),
            spec_remove_blocks(l1) == spec_remove_blocks(cur@),
        ensures
            spec_remove_blocks(l1) == cur@,
        decreases cur@.len(),
    {
        let cn = cur.len();
        match find2(&cur, 0, '/', '*') {
            None => {
                break ;
            },
            Some(bi) => {
                match find2(&cur, bi + 2, '*', '/') {
                    None => {
                        break ;
                    },
                    Some(ei) => {
                        let ghost prev = cur@;
                        cur = splice(&cur, bi, ei + 2, &empty);
                        proof {
                            assert(cur@ =~= prev.subrange(0, bi as int) + prev.subrange(
                                ei as int + 2,
                                prev.len() as int,
                            ));
                        }
                    },
                }
            },
        }
    }
    match find2(&cur, 0, '/', '/') {
        Some(c) => (subvec(&cur, 0, c), false),
        None => {
            match find2(&cur, 0, '/', '*') {
                Some(_) => (cur, true),
                None => (cur, false),
            }
        },
    }
}

/// Strips comments from one logical line, handing back the comment-free
/// text and whether the next line starts inside a block comment.
pub fn remove_comments(line: &str, in_block_comment: bool) -> (r: (String, bool))
    ensures
        r.0@ == spec_strip_line(line@, in_block_comment).0,
        r.1 == spec_strip_line(line@, in_block_comment).1,
{
    let v = str_to_chars(line);
    let (w, b) = strip_line_chars(&v, in_block_comment);
    (chars_to_string(&w), b)
}

} // verus!
