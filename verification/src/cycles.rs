//! The cycle detector.
//!
//! `find_cycles` walks the reference graph of the working map depth-first,
//! keeping the current path on a stack. When a walk reaches a name already
//! on the stack, every name from that stack position to the top lies on the
//! cycle just closed and is marked invalid. A fully visited name is never
//! walked again. A name with no map entry, or one carried over from the
//! baseline (no references), ends its branch.
//!
//! The walk carries a step budget that shrinks with each edge descended.
//! Each descending step visits a fresh name with a map entry, so the budget
//! `find_cycles` hands out (two more than the number of entries) exceeds any
//! reachable depth and never cuts a walk short.

use vstd::prelude::*;
use crate::table::{NameSet, NameTable, assoc_map};
use crate::cascade::BorrowedValue;

verus! {

/// The views of a sequence of names.
pub open spec fn views_of(s: Seq<String>) -> Seq<Seq<char>> {
    s.map_values(|x: String| x@)
}

/// The set of the members of `s`.
pub open spec fn set_of_views(s: Seq<Seq<char>>) -> Set<Seq<char>> {
    Set::new(|k: Seq<char>| exists|i: int| 0 <= i < s.len() && s[i] == k)
}

/// The first position of `x` in `s`, or `-1`.
pub open spec fn find_first(s: Seq<Seq<char>>, x: Seq<char>) -> int
    decreases s.len(),
{
    if s.len() == 0 {
        -1
    } else if s[0] == x {
        0
    } else {
        let r = find_first(s.drop_first(), x);
        if r < 0 {
            -1
        } else {
            r + 1
        }
    }
}

pub proof fn lemma_find_first(s: Seq<Seq<char>>, x: Seq<char>)
    ensures
        find_first(s, x) == -1 ==> forall|i: int| 0 <= i < s.len() ==> s[i] != x,
        find_first(s, x) != -1 ==> 0 <= find_first(s, x) < s.len() && s[find_first(s, x)] == x
            && forall|j: int| 0 <= j < find_first(s, x) ==> s[j] != x,
    decreases s.len(),
{
    if s.len() == 0 {
    } else if s[0] == x {
    } else {
        lemma_find_first(s.drop_first(), x);
        let r = find_first(s.drop_first(), x);
        if r < 0 {
            assert forall|i: int| 0 <= i < s.len() implies s[i] != x by {
                if i > 0 {
                    assert(s.drop_first()[i - 1] == s[i]);
                }
            }
        } else {
            assert(s.drop_first()[r] == s[r + 1]);
            assert forall|j: int| 0 <= j < r + 1 implies s[j] != x by {
                if j > 0 {
                    assert(s.drop_first()[j - 1] == s[j]);
                }
            }
        }
    }
}

pub proof fn lemma_set_of_views_push(s: Seq<Seq<char>>, x: Seq<char>)
    ensures
        set_of_views(s.push(x)) == set_of_views(s).insert(x),
{
    assert forall|k: Seq<char>| set_of_views(s.push(x)).contains(k) implies set_of_views(
        s,
    ).insert(x).contains(k) by {
        let i = choose|i: int| 0 <= i < s.push(x).len() && s.push(x)[i] == k;
        if i < s.len() {
            assert(s[i] == k);
        }
    }
    assert forall|k: Seq<char>| set_of_views(s).insert(x).contains(k) implies set_of_views(
        s.push(x),
    ).contains(k) by {
        if k == x {
            assert(s.push(x)[s.len() as int] == k);
        } else {
            let i = choose|i: int| 0 <= i < s.len() && s[i] == k;
            assert(s.push(x)[i] == k);
        }
    }
    assert(set_of_views(s.push(x)) =~= set_of_views(s).insert(x));
}

/// One depth-first step from `name`: visits it, and if it has a declared
/// value with references, walks each of them with `name` on the stack.
/// Returns the visited and invalid sets it leaves behind.
pub open spec fn spec_walk(
    entries: Seq<(String, BorrowedValue)>,
    name: Seq<char>,
    stack: Seq<Seq<char>>,
    visited: Set<Seq<char>>,
    invalid: Set<Seq<char>>,
    fuel: nat,
) -> (Set<Seq<char>>, Set<Seq<char>>)
    decreases fuel, 1int, 0int,
{
    if visited.contains(name) {
        (visited, invalid)
    } else {
        let v1 = visited.insert(name);
        let m = assoc_map(entries);
        if m.contains_key(name) && m[name].references is Some {
            spec_walk_refs(
                entries,
                views_of(m[name].references.unwrap().items@),
                0,
                stack.push(name),
                v1,
                invalid,
                fuel,
            )
        } else {
            (v1, invalid)
        }
    }
}

/// Walks the references `refs[k..]` in order: one already on the stack
/// closes a cycle, whose stack segment is marked invalid; one not on the
/// stack is walked, if budget remains.
pub open spec fn spec_walk_refs(
    entries: Seq<(String, BorrowedValue)>,
    refs: Seq<Seq<char>>,
    k: int,
    stack: Seq<Seq<char>>,
    visited: Set<Seq<char>>,
    invalid: Set<Seq<char>>,
    fuel: nat,
) -> (Set<Seq<char>>, Set<Seq<char>>)
    decreases fuel, 0int, refs.len() - k,
{
    if k < 0 || k >= refs.len() {
        (visited, invalid)
    } else {
        let next = refs[k];
        let pos = find_first(stack, next);
        if pos >= 0 {
            let inv1 = invalid.union(set_of_views(stack.subrange(pos, stack.len() as int)));
            spec_walk_refs(entries, refs, k + 1, stack, visited, inv1, fuel)
        } else if fuel > 0 {
            let (v1, inv1) = spec_walk(entries, next, stack, visited, invalid, (fuel - 1) as nat);
            spec_walk_refs(entries, refs, k + 1, stack, v1, inv1, fuel)
        } else {
            spec_walk_refs(entries, refs, k + 1, stack, visited, invalid, fuel)
        }
    }
}

/// The (visited, invalid) state after walking the first `idx` entry names.
pub open spec fn cycles_state(entries: Seq<(String, BorrowedValue)>, idx: int, fuel: nat) -> (
    Set<Seq<char>>,
    Set<Seq<char>>,
)
    decreases idx,
{
    if idx <= 0 {
        (Set::empty(), Set::empty())
    } else {
        let (v, inv) = cycles_state(entries, idx - 1, fuel);
        spec_walk(entries, entries[idx - 1].0@, Seq::empty(), v, inv, fuel)
    }
}

/// The walk budget for a map: more than any reachable walk depth.
pub open spec fn walk_budget(n: nat) -> nat {
    if n < usize::MAX - 2 {
        n + 2
    } else {
        usize::MAX as nat
    }
}

/// The set of names on reference cycles of the working map, walked in entry
/// order.
pub open spec fn spec_find_cycles(entries: Seq<(String, BorrowedValue)>) -> Set<Seq<char>> {
    cycles_state(entries, entries.len() as int, walk_budget(entries.len() as nat)).1
}

fn walk(
    map: &NameTable<BorrowedValue>,
    name: &String,
    stack: &mut Vec<String>,
    visited: &mut NameSet,
    invalid: &mut NameSet,
    fuel: usize,
)
    ensures
        final(stack)@ == old(stack)@,
        ({
            let (v2, i2) = spec_walk(
                map.entries@,
                name@,
                views_of(old(stack)@),
                old(visited).as_set(),
                old(invalid).as_set(),
                fuel as nat,
            );
            final(visited).as_set() == v2 && final(invalid).as_set() == i2
        }),
    decreases fuel, 1int, 0int,
{
    if visited.contains(name) {
        return ;
    }
    visited.insert(name.clone());
    let value = match map.get(name) {
        Some(v) => v,
        None => {
            return ;
        },
    };
    let refs = match &value.references {
        Some(r) => r,
        None => {
            return ;
        },
    };
    stack.push(name.clone());
    proof {
        assert(views_of(old(stack)@.push(*name)) =~= views_of(old(stack)@).push(name@));
    }
    walk_refs(map, refs, 0, stack, visited, invalid, fuel);
    let _ = stack.pop();
    proof {
        assert(old(stack)@.push(*name).drop_last() =~= old(stack)@);
    }
}

fn walk_refs(
    map: &NameTable<BorrowedValue>,
    refs: &NameSet,
    k: usize,
    stack: &mut Vec<String>,
    visited: &mut NameSet,
    invalid: &mut NameSet,
    fuel: usize,
)
    ensures
        final(stack)@ == old(stack)@,
        ({
            let (v2, i2) = spec_walk_refs(
                map.entries@,
                views_of(refs.items@),
                k as int,
                views_of(old(stack)@),
                old(visited).as_set(),
                old(invalid).as_set(),
                fuel as nat,
            );
            final(visited).as_set() == v2 && final(invalid).as_set() == i2
        }),
    decreases fuel, 0int, refs.items@.len() - k,
{
    if k >= refs.items.len() {
        return ;
    }
    let next = &refs.items[k];
    let ghost sv = views_of(stack@);
    let mut pos: usize = 0;
    let mut found = false;
    while pos < stack.len() && !found
        invariant
            pos <= sv.len(),
            sv == views_of(stack@),
            !found ==> forall|j: int| 0 <= j < pos ==> sv[j] != next@,
            found ==> pos < sv.len() && sv[pos as int] == next@ && forall|j: int|
                0 <= j < pos ==> sv[j] != next@,
        decreases sv.len() - pos, (if found { 0int } else { 1int }),
    {
        if stack[pos] == *next {
            found = true;
        } else {
            pos = pos + 1;
        }
    }
    proof {
        lemma_find_first(sv, next@);
        if found {
            assert(find_first(sv, next@) == pos as int);
        } else {
            assert(find_first(sv, next@) == -1);
        }
    }
    if found {
        let ghost inv0 = invalid.as_set();
        let mut m = pos;
        proof {
            assert(inv0.union(set_of_views(sv.subrange(pos as int, pos as int))) =~= inv0);
        }
        while m < stack.len()
            invariant
                pos <= m <= sv.len(),
                sv == views_of(stack@),
                invalid.as_set() == inv0.union(set_of_views(sv.subrange(pos as int, m as int))),
            decreases sv.len() - m,
        {
            invalid.insert(stack[m].clone());
            proof {
                assert(sv.subrange(pos as int, m as int).push(sv[m as int]) =~= sv.subrange(
                    pos as int,
                    m as int + 1,
                ));
                lemma_set_of_views_push(sv.subrange(pos as int, m as int), sv[m as int]);
                assert(inv0.union(
                    set_of_views(sv.subrange(pos as int, m as int)),
                ).insert(sv[m as int]) =~= inv0.union(
                    set_of_views(sv.subrange(pos as int, m as int + 1)),
                ));
            }
            m = m + 1;
        }
        walk_refs(map, refs, k + 1, stack, visited, invalid, fuel);
    } else {
        if fuel > 0 {
            walk(map, next, stack, visited, invalid, fuel - 1);
        }
        walk_refs(map, refs, k + 1, stack, visited, invalid, fuel);
    }
}

/// Finds every name of the working map that lies on a reference cycle.
pub fn find_cycles(map: &NameTable<BorrowedValue>) -> (r: NameSet)
    ensures
        r.as_set() == spec_find_cycles(map.entries@),
{
    let n = map.entries.len();
    let fuel: usize = if n < usize::MAX - 2 {
        n + 2
    } else {
        usize::MAX
    };
    let mut visited = NameSet::new();
    let mut invalid = NameSet::new();
    let mut stack: Vec<String> = Vec::new();
    let mut i: usize = 0;
    while i < map.entries.len()
        invariant
            i <= map.entries@.len(),
            fuel as nat == walk_budget(map.entries@.len() as nat),
            stack@.len() == 0,
            ({
                let (v, inv) = cycles_state(map.entries@, i as int, fuel as nat);
                visited.as_set() == v && invalid.as_set() == inv
            }),
        decreases map.entries@.len() - i,
    {
        let name = &map.entries[i].0;
        proof {
            assert(views_of(stack@) =~= Seq::<Seq<char>>::empty());
        }
        walk(map, name, &mut stack, &mut visited, &mut invalid, fuel);
        i = i + 1;
    }
    invalid
}

} // verus!
