//! Small sets of names, held as vectors of unique strings.

use vstd::prelude::*;

use crate::text::str_eq;

verus! {

/// Does the list hold this name?
pub open spec fn names_has(l: Seq<String>, n: Seq<char>) -> bool {
    exists|i: int| 0 <= i < l.len() && (#[trigger] l[i])@ == n
}

/// Does each name occur at most once?
pub open spec fn names_unique(l: Seq<String>) -> bool {
    forall|i: int, j: int| 0 <= i < j < l.len() ==> (#[trigger] l[i])@ != (#[trigger] l[j])@
}

/// Is the list a member of this name?
pub fn list_has(l: &Vec<String>, n: &str) -> (r: bool)
    ensures
        r == names_has(l@, n@),
{
    let mut j: usize = 0;
    while j < l.len()
        invariant
            0 <= j <= l@.len(),
            forall|jj: int| 0 <= jj < j ==> (#[trigger] l@[jj])@ != n@,
        decreases l@.len() - j,
    {
        if str_eq(l[j].as_str(), n) {
            return true;
        }
        j = j + 1;
    }
    false
}

/// Put a name into the set; a name already there is not doubled.
pub fn list_insert(l: &mut Vec<String>, n: String)
    requires
        names_unique(old(l)@),
    ensures
        names_unique(final(l)@),
        forall|m: Seq<char>| #[trigger] names_has(final(l)@, m) == (names_has(old(l)@, m) || m == n@),
{
    let ghost l0 = l@;
    if !list_has(l, n.as_str()) {
        l.push(n);
        proof {
            assert forall|j1: int, j2: int| 0 <= j1 < j2 < l@.len() implies (#[trigger] l@[j1])@
                != (#[trigger] l@[j2])@ by {
                assert(l@[j1] == l0[j1]);
                if j2 == l0.len() {
                    if l0[j1]@ == n@ {
                        assert(names_has(l0, n@));
                    }
                } else {
                    assert(l@[j2] == l0[j2]);
                }
            }
            assert forall|m: Seq<char>| #[trigger] names_has(l@, m) == (names_has(l0, m) || m
                == n@) by {
                if names_has(l0, m) {
                    let j = choose|j: int| 0 <= j < l0.len() && (#[trigger] l0[j])@ == m;
                    assert(l@[j]@ == m);
                }
                if m == n@ {
                    assert(l@[l0.len() as int]@ == m);
                }
                if names_has(l@, m) {
                    let j = choose|j: int| 0 <= j < l@.len() && (#[trigger] l@[j])@ == m;
                    if j < l0.len() {
                        assert(l0[j]@ == m);
                    }
                }
            }
        }
    } else {
        proof {
            assert(names_has(l0, n@));
        }
    }
}

/// Take a name out of the set; an absent name changes nothing.
pub fn list_remove(l: &mut Vec<String>, n: &str)
    requires
        names_unique(old(l)@),
    ensures
        names_unique(final(l)@),
        forall|m: Seq<char>| #[trigger]
            names_has(final(l)@, m) == (names_has(old(l)@, m) && m != n@),
{
    let ghost l0 = l@;
    let mut j: usize = 0;
    while j < l.len()
        invariant
            names_unique(l@),
            l0 == old(l)@,
            l@ == l0,
            0 <= j <= l@.len(),
            forall|jj: int| 0 <= jj < j ==> (#[trigger] l@[jj])@ != n@,
        decreases l@.len() - j,
    {
        if str_eq(l[j].as_str(), n) {
            let _removed = l.swap_remove(j);
            proof {
                let len = l0.len() as int;
                assert(l@.len() == len - 1);
                assert forall|i: int| 0 <= i < len - 1 implies l@[i] == l0[
                    (if i == j { len - 1 } else { i })
                ] by {}
                assert forall|j1: int, j2: int| 0 <= j1 < j2 < l@.len() implies (
                #[trigger] l@[j1])@ != (#[trigger] l@[j2])@ by {
                    let o1 = if j1 == j { len - 1 } else { j1 };
                    let o2 = if j2 == j { len - 1 } else { j2 };
                    assert(l@[j1] == l0[o1]);
                    assert(l@[j2] == l0[o2]);
                    assert(o1 != o2);
                }
                assert forall|m: Seq<char>| #[trigger]
                    names_has(l@, m) == (names_has(l0, m) && m != n@) by {
                    if names_has(l@, m) {
                        let i = choose|i: int| 0 <= i < l@.len() && (#[trigger] l@[i])@ == m;
                        let o = if i == j { len - 1 } else { i };
                        assert(l@[i] == l0[o]);
                        assert(l0[o]@ == m);
                        assert(names_has(l0, m));
                        if m == n@ {
                            assert(l0[j as int]@ == n@);
                            assert(o != j);
                            assert(false);
                        }
                    } else {
                        if names_has(l0, m) && m != n@ {
                            let i = choose|i: int| 0 <= i < l0.len() && (#[trigger] l0[i])@ == m;
                            assert(i != j);
                            if i == len - 1 {
                                assert(j < len - 1);
                                assert(l@[j as int] == l0[len - 1]);
                            } else {
                                assert(l@[i] == l0[i]);
                            }
                            assert(names_has(l@, m));
                            assert(false);
                        }
                    }
                }
            }
            return ;
        }
        j = j + 1;
    }
    proof {
        assert(!names_has(l0, n@));
    }
}

} // verus!
