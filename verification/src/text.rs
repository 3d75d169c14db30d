//! Small verified utilities on lines represented as `Vec<char>`, and the
//! conversions between `String` and that representation.
use vstd::prelude::*;

verus! {

/// Relies on str::chars: yields exactly the characters of the string, in
/// order; a str's view is that character sequence.
#[verifier::external_body]
pub fn str_to_chars(s: &str) -> (r: Vec<char>)
    ensures
        r@ == s@,
{
    s.chars().collect()
}

/// Relies on String::push: appends one character to the end of the string.
#[verifier::external_body]
fn push_char(s: &mut String, c: char)
    ensures
        final(s)@ == old(s)@.push(c),
{
    s.push(c);
}

/// The string holding exactly the given characters, in order.
pub fn chars_to_string(v: &Vec<char>) -> (r: String)
    ensures
        r@ == v@,
{
    let mut r = String::new();
    let mut i: usize = 0;
    while i < v.len()
        invariant
            i <= v@.len(),
            r@ == v@.subrange(0, i as int),
        decreases v@.len() - i,
    {
        push_char(&mut r, v[i]);
        i = i + 1;
        proof {
            assert(r@ =~= v@.subrange(0, i as int));
        }
    }
    proof {
        assert(r@ =~= v@);
    }
    r
}

/// Whether two character vectors hold the same characters.
pub fn chars_eq(a: &Vec<char>, b: &Vec<char>) -> (r: bool)
    ensures
        r == (a@ == b@),
{
    if a.len() != b.len() {
        proof {
            assert(a@.len() != b@.len());
        }
        return false;
    }
    let mut i: usize = 0;
    while i < a.len()
        invariant
            i <= a@.len(),
            a@.len() == b@.len(),
            forall|j: int| 0 <= j < i ==> a@[j] == b@[j],
        decreases a@.len() - i,
    {
        if a[i] != b[i] {
            return false;
        }
        i = i + 1;
    }
    proof {
        assert(a@ =~= b@);
    }
    true
}

/// A copy of the characters in positions `from..to`.
pub fn subvec(v: &Vec<char>, from: usize, to: usize) -> (r: Vec<char>)
    requires
        from <= to <= v@.len(),
    ensures
        r@ == v@.subrange(from as int, to as int),
{
    let mut r: Vec<char> = Vec::new();
    let mut i: usize = from;
    while i < to
        invariant
            from <= i <= to <= v@.len(),
            r@ == v@.subrange(from as int, i as int),
        decreases to - i,
    {
        r.push(v[i]);
        i = i + 1;
        proof {
            assert(r@ =~= v@.subrange(from as int, i as int));
        }
    }
    r
}

/// The line with positions `from..to` replaced by `repl`.
pub fn splice(v: &Vec<char>, from: usize, to: usize, repl: &Vec<char>) -> (r: Vec<char>)
    requires
        from <= to <= v@.len(),
    ensures
        r@ == v@.subrange(0, from as int) + repl@ + v@.subrange(to as int, v@.len() as int),
{
    let mut r = subvec(v, 0, from);
    let mut rest = subvec(v, to, v.len());
    let mut mid = subvec(repl, 0, repl.len());
    r.append(&mut mid);
    r.append(&mut rest);
    proof {
        assert(repl@.subrange(0, repl@.len() as int) =~= repl@);
    }
    r
}

/// The first position at or after `from` where the two-character pattern
/// `c0 c1` occurs, if any.
pub open spec fn spec_find2(s: Seq<char>, from: int, c0: char, c1: char) -> Option<int>
    decreases s.len() - from,
{
    if from + 1 >= s.len() {
        None
    } else if s[from] == c0 && s[from + 1] == c1 {
        Some(from)
    } else {
        spec_find2(s, from + 1, c0, c1)
    }
}

pub fn find2(v: &Vec<char>, from: usize, c0: char, c1: char) -> (r: Option<usize>)
    requires
        from <= v@.len(),
    ensures
        match r {
            Some(j) => from <= j && j + 1 < v@.len() && spec_find2(v@, from as int, c0, c1)
                == Some(j as int),
            None => spec_find2(v@, from as int, c0, c1) is None,
        },
{
    let mut i: usize = from;
    loop
        invariant
            from <= i <= v@.len(),
            spec_find2(v@, from as int, c0, c1) == spec_find2(v@, i as int, c0, c1),
        decreases v@.len() - i,
    {
        if i >= v.len() {
            return None;
        }
        if i + 1 >= v.len() {
            return None;
        }
        if v[i] == c0 && v[i + 1] == c1 {
            return Some(i);
        }
        i = i + 1;
    }
}

} // verus!
