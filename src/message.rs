//! Diagnostic templates and the positional formatter that fills them.

use vstd::prelude::*;
use crate::text::{chars_of, push_range, string_of};

verus! {

/// The number of diagnostic templates a settings table holds.
pub const MESSAGES_NUMBER: usize = 12;

pub const OPENING_FILE_ERROR: usize = 0;
pub const MISSING_START_SECTION_TAG: usize = 1;
pub const MISSING_END_SECTION_TAG: usize = 2;
pub const MISSING_ASSIGN_TAG: usize = 3;
pub const MISSING_KEY: usize = 4;
pub const DUPLICATED_KEY: usize = 5;
pub const SECTION_NOT_FOUND: usize = 6;
pub const KEY_NOT_FOUND: usize = 7;
pub const PARSING_ERROR: usize = 8;
pub const WRITING_FILE_ERROR: usize = 9;
pub const READING_FILE_ERROR: usize = 10;
pub const ALREADY_INITIALIZED: usize = 11;

/// Index of the first `{}` placeholder in `s` at or after `i`, or `s.len()`.
pub open spec fn find_placeholder(s: Seq<char>, i: int) -> int
    decreases s.len() - i,
{
    if 0 <= i && i + 1 < s.len() {
        if s[i] == '{' && s[i + 1] == '}' {
            i
        } else {
            find_placeholder(s, i + 1)
        }
    } else {
        s.len() as int
    }
}

/// `t` with its placeholders filled by `params`, left to right: the first
/// `{}` of `t` takes the first parameter, the next `{}` after it the second,
/// and so on. Text that a parameter brings in is not searched again. Once the
/// parameters run out, the remaining placeholders stay as they are; extra
/// parameters are ignored.
pub open spec fn fill(t: Seq<char>, params: Seq<Seq<char>>) -> Seq<char>
    decreases params.len(),
{
    if params.len() == 0 {
        t
    } else {
        let i = find_placeholder(t, 0);
        if i >= t.len() {
            t
        } else {
            t.subrange(0, i) + params[0] + fill(t.subrange(i + 2, t.len() as int), params.drop_first())
        }
    }
}

pub open spec fn views(v: Seq<String>) -> Seq<Seq<char>> {
    v.map_values(|s: String| s@)
}

fn find_placeholder_exec(v: &Vec<char>) -> (r: usize)
    ensures
        r as int == find_placeholder(v@, 0),
        r <= v@.len(),
        r < v@.len() ==> r + 1 < v@.len(),
{
    let mut i: usize = 0;
    while v.len() > 1 && i < v.len() - 1
        invariant
            i <= v@.len(),
            find_placeholder(v@, 0) == find_placeholder(v@, i as int),
        decreases v@.len() - i,
    {
        if v[i] == '{' && v[i + 1] == '}' {
            return i;
        }
        i = i + 1;
    }
    v.len()
}

/// Fills `template` with `params` as `fill` says.
pub fn fill_template(template: &String, params: &Vec<String>) -> (r: String)
    ensures
        r@ == fill(template@, views(params@)),
{
    let mut rest = chars_of(template.as_str());
    let mut out: Vec<char> = Vec::new();
    let mut k: usize = 0;
    let ghost ps = views(params@);
    assert(ps.subrange(0, ps.len() as int) =~= ps);
    assert(out@ + fill(rest@, ps) =~= fill(template@, ps));
    while k < params.len()
        invariant
            k <= params@.len(),
            ps == views(params@),
            ps.len() == params@.len(),
            fill(template@, ps) == out@ + fill(rest@, ps.subrange(k as int, ps.len() as int)),
        ensures
            fill(template@, ps) == out@ + rest@,
        decreases params@.len() - k,
    {
        let i = find_placeholder_exec(&rest);
        if i >= rest.len() {
            assert(fill(rest@, ps.subrange(k as int, ps.len() as int)) == rest@);
            break;
        }
        let ghost before = rest@;
        let ghost out_before = out@;
        push_range(&mut out, &rest, 0, i);
        let p = chars_of(params[k].as_str());
        push_range(&mut out, &p, 0, p.len());
        let mut tail: Vec<char> = Vec::new();
        push_range(&mut tail, &rest, i + 2, rest.len());
        assert(p@.subrange(0, p@.len() as int) =~= p@);
        assert(ps.subrange(k as int, ps.len() as int).drop_first() =~= ps.subrange(
            k as int + 1,
            ps.len() as int,
        ));
        assert(tail@ =~= before.subrange(i as int + 2, before.len() as int));
        rest = tail;
        k = k + 1;
        assert(out@ =~= out_before + before.subrange(0, i as int) + ps[k - 1]);
        assert(fill(template@, ps) =~= out@ + fill(rest@, ps.subrange(k as int, ps.len() as int)));
        if k == params.len() {
            assert(ps.subrange(k as int, ps.len() as int) =~= Seq::<Seq<char>>::empty());
        }
    }
    push_range(&mut out, &rest, 0, rest.len());
    assert(rest@.subrange(0, rest@.len() as int) =~= rest@);
    string_of(&out, 0, out.len())
}

} // verus!
