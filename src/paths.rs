//! Predicates on source file names.
use vstd::prelude::*;
use crate::text::chars_of;

verus! {

/// The suffix of a Solidity test file.
pub open spec fn sol_test_suffix() -> Seq<char> {
    seq!['.', 't', '.', 's', 'o', 'l']
}

/// `name` ends in `.t.sol`.
pub open spec fn is_sol_test_name_spec(name: Seq<char>) -> bool {
    name.len() >= 6 && name.subrange(name.len() - 6, name.len() as int) == sol_test_suffix()
}

/// Whether the file name `name` ends in `.t.sol`, the mark of a Solidity test file.
pub fn is_sol_test_name(name: &str) -> (r: bool)
    ensures
        r == is_sol_test_name_spec(name@),
{
    let v = chars_of(name);
    let n = v.len();
    if n < 6 {
        return false;
    }
    let suffix = vec!['.', 't', '.', 's', 'o', 'l'];
    assert(suffix@ =~= sol_test_suffix());
    let mut i: usize = 0;
    while i < 6
        invariant
            v@ == name@,
            n == v@.len(),
            n >= 6,
            suffix@ == sol_test_suffix(),
            i <= 6,
            forall|q: int| 0 <= q < i ==> v@[n - 6 + q] == suffix@[q],
        decreases 6 - i,
    {
        if v[n - 6 + i] != suffix[i] {
            assert(v@.subrange(n - 6, n as int)[i as int] == v@[n - 6 + i]);
            return false;
        }
        i = i + 1;
    }
    assert(v@.subrange(n - 6, n as int) =~= suffix@);
    true
}

} // verus!
