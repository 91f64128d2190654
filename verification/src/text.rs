//! Joining the texts of a list with a separator.

use vstd::prelude::*;
use vstd::string::*;

verus! {

/// The parts from index `from` on, with `sep` between each two neighbours.
pub open spec fn joined(parts: Seq<Seq<char>>, sep: Seq<char>, from: int) -> Seq<char>
    decreases parts.len() - from,
{
    if from < 0 || from >= parts.len() {
        Seq::empty()
    } else if from == parts.len() - 1 {
        parts[from]
    } else {
        parts[from] + sep + joined(parts, sep, from + 1)
    }
}

/// All the parts, with `sep` between each two neighbours and none at the ends.
pub open spec fn join(parts: Seq<Seq<char>>, sep: Seq<char>) -> Seq<char> {
    joined(parts, sep, 0)
}

/// What is still to be written once the first `done` parts have been.
pub open spec fn remaining(parts: Seq<Seq<char>>, sep: Seq<char>, done: int) -> Seq<char> {
    if done >= parts.len() {
        Seq::empty()
    } else if done <= 0 {
        joined(parts, sep, 0)
    } else {
        sep + joined(parts, sep, done)
    }
}

/// Appends the items to `f`, separated by `sep`.  An empty list appends nothing.
pub fn fmt_list(f: &mut String, sep: &str, args: &Vec<String>)
    ensures
        final(f)@ == old(f)@ + join(args.deep_view(), sep@),
{
    let ghost parts = args.deep_view();
    let ghost whole = old(f)@ + join(parts, sep@);
    let mut k: usize = 0;
    while k < args.len()
        invariant
            k <= args.len(),
            parts == args.deep_view(),
            f@ + remaining(parts, sep@, k as int) == whole,
        decreases args.len() - k,
    {
        if k > 0 {
            f.append(sep);
        }
        f.append(args[k].as_str());
        proof {
            let rest = remaining(parts, sep@, k + 1);
            if k == 0 {
                assert(remaining(parts, sep@, 0) =~= parts[0] + rest);
            } else {
                assert(remaining(parts, sep@, k as int) =~= sep@ + parts[k as int] + rest);
            }
        }
        k += 1;
    }
}

} // verus!
