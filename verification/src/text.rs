use vstd::prelude::*;
use vstd::string::StringExecFns;

use crate::record::strings_view;

verus! {

/// The names joined with one separator between neighbours.
pub open spec fn spec_join(names: Seq<Seq<char>>, sep: Seq<char>) -> Seq<char>
    decreases names.len(),
{
    if names.len() == 0 {
        Seq::empty()
    } else if names.len() == 1 {
        names[0]
    } else {
        (spec_join(names.drop_last(), sep) + sep) + names.last()
    }
}

/// The natural-language listing of the names: one name stands alone, two
/// are joined by "and", and three or more separate all but the last by
/// commas and the last by "and".
pub open spec fn spec_natural_human_names(names: Seq<Seq<char>>) -> Seq<char> {
    if names.len() < 3 {
        spec_join(names, " and "@)
    } else {
        (spec_join(names.drop_last(), ", "@) + " and "@) + names.last()
    }
}

/// Joins the first names of a list with one separator.
fn join_slice(names: &[String], end: usize, sep: &str) -> (r: String)
    requires
        1 <= end <= names@.len(),
    ensures
        r@ == spec_join(strings_view(names@).subrange(0, end as int), sep@),
{
    let mut s = names[0].clone();
    proof {
        assert(strings_view(names@).subrange(0, 1) =~= seq![names@[0]@]);
    }
    let mut i: usize = 1;
    while i < end
        invariant
            1 <= i <= end <= names@.len(),
            s@ == spec_join(strings_view(names@).subrange(0, i as int), sep@),
        decreases end - i,
    {
        s.append(sep);
        s.append(names[i].as_str());
        proof {
            let pre = strings_view(names@).subrange(0, i as int);
            let cur = strings_view(names@).subrange(0, i + 1);
            assert(cur.drop_last() =~= pre);
            assert(cur.last() == names@[i as int]@);
        }
        i += 1;
    }
    s
}

/// Renders a non-empty list of user names as natural language: "a",
/// "a and b", "a, b and c".
pub fn natural_human_names(names: &[String]) -> (r: String)
    requires
        names@.len() > 0,
    ensures
        r@ == spec_natural_human_names(strings_view(names@)),
{
    let n = names.len();
    if n < 3 {
        let r = join_slice(names, n, " and ");
        proof {
            assert(strings_view(names@).subrange(0, n as int) =~= strings_view(names@));
        }
        r
    } else {
        let mut s = join_slice(names, n - 1, ", ");
        s.append(" and ");
        s.append(names[n - 1].as_str());
        proof {
            assert(strings_view(names@).subrange(0, n - 1) =~= strings_view(names@).drop_last());
            assert(strings_view(names@).last() == names@[n - 1]@);
        }
        s
    }
}

} // verus!
