use crate::token::{chars_of, string_of};
use vstd::prelude::*;

verus! {

/// Source text with every `//` comment removed up to the end of its line;
/// `skipping` tells whether a comment is open.
pub open spec fn strip_comments(cs: Seq<char>, skipping: bool) -> Seq<char>
    decreases cs.len(),
{
    if cs.len() == 0 {
        seq![]
    } else if cs[0] == '\n' {
        seq!['\n'] + strip_comments(cs.drop_first(), false)
    } else if skipping {
        strip_comments(cs.drop_first(), true)
    } else if cs.len() >= 2 && cs[0] == '/' && cs[1] == '/' {
        strip_comments(cs.drop_first(), true)
    } else {
        seq![cs[0]] + strip_comments(cs.drop_first(), false)
    }
}

/// Removes `//` comments: on each line, from the first `//` to the end of the line.
pub fn preprocess_code(code: String) -> (r: String)
    ensures
        r@ == strip_comments(code@, false),
{
    let cs = chars_of(code.as_str());
    let mut out: Vec<char> = Vec::new();
    let mut skipping = false;
    let mut i: usize = 0;
    assert(cs@.skip(0) =~= cs@);
    assert(out@ + strip_comments(cs@, false) =~= strip_comments(cs@, false));
    while i < cs.len()
        invariant
            0 <= i <= cs@.len(),
            cs@ == code@,
            strip_comments(cs@, false) == out@ + strip_comments(cs@.skip(i as int), skipping),
        decreases cs@.len() - i,
    {
        let ghost rest = cs@.skip(i as int);
        assert(rest.drop_first() =~= cs@.skip(i + 1));
        assert(rest[0] == cs@[i as int]);
        let c = cs[i];
        if c == '\n' {
            assert(out@.push('\n') + strip_comments(rest.drop_first(), false)
                =~= out@ + (seq!['\n'] + strip_comments(rest.drop_first(), false)));
            out.push(c);
            skipping = false;
        } else if skipping {
        } else if i + 1 < cs.len() && c == '/' && cs[i + 1] == '/' {
            assert(rest[1] == cs@[i + 1]);
            skipping = true;
        } else {
            assert(out@.push(c) + strip_comments(rest.drop_first(), false)
                =~= out@ + (seq![c] + strip_comments(rest.drop_first(), false)));
            out.push(c);
        }
        i = i + 1;
    }
    assert(cs@.skip(i as int) =~= seq![]);
    assert(out@ + seq![] =~= out@);
    string_of(&out)
}

} // verus!
