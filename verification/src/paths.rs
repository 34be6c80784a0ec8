//! File paths as text, with a slash between their parts.

use vstd::prelude::*;
use vstd::string::*;

verus! {

/// A path behind another: an absolute one stands alone.
pub open spec fn joined_path(base: Seq<char>, part: Seq<char>) -> Seq<char> {
    if part.len() > 0 && part[0] == '/' {
        part
    } else if base.len() == 0 || base.last() == '/' {
        base + part
    } else {
        base + "/"@ + part
    }
}

/// Puts a path behind another.
pub fn join_path(base: &str, part: &str) -> (r: String)
    ensures
        r@ == joined_path(base@, part@),
{
    let base_len = base.unicode_len();
    if part.unicode_len() > 0 && part.get_char(0) == '/' {
        return part.to_owned();
    }
    let mut r = base.to_owned();
    if base_len > 0 && base.get_char(base_len - 1) != '/' {
        r.append("/");
    }
    r.append(part);
    r
}

/// A path behind another begins with that other and ends with itself, with one
/// slash between them, unless it is absolute.
pub proof fn lemma_joined_path(base: Seq<char>, part: Seq<char>)
    ensures
        part.len() > 0 && part[0] == '/' ==> joined_path(base, part) == part,
        part.len() == 0 || part[0] != '/' ==> {
            let whole = joined_path(base, part);
            &&& whole.len() >= base.len() + part.len()
            &&& whole.take(base.len() as int) == base
            &&& whole.skip(whole.len() - part.len()) == part
            &&& base.len() == 0 || base.last() == '/' ==> whole.len() == base.len() + part.len()
            &&& base.len() > 0 && base.last() != '/' ==> whole.len() == base.len() + part.len() + 1
                && whole[base.len() as int] == '/'
        },
{
    reveal_strlit("/");
    let whole = joined_path(base, part);
    if part.len() == 0 || part[0] != '/' {
        assert(whole.take(base.len() as int) =~= base);
        assert(whole.skip(whole.len() - part.len()) =~= part);
    }
}

} // verus!
