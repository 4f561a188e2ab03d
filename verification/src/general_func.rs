//! Membership tests on strings and lists of strings.
use vstd::prelude::*;

use crate::text::chars_of;

verus! {

/// Whether `target` and `chars` have a character in common.
pub fn does_contain_vec(target: String, chars: Vec<char>) -> (r: bool)
    ensures
        r == exists|i: int, j: int|
            0 <= i < target@.len() && 0 <= j < chars@.len() && target@[i] == chars@[j],
{
    let t = chars_of(target.as_str());
    let mut i: usize = 0;
    while i < t.len()
        invariant
            i <= t@.len(),
            t@ == target@,
            forall|a: int, b: int| 0 <= a < i && 0 <= b < chars@.len() ==> t@[a] != chars@[b],
        decreases t.len() - i,
    {
        let mut j: usize = 0;
        while j < chars.len()
            invariant
                i < t@.len(),
                t@ == target@,
                j <= chars@.len(),
                forall|b: int| 0 <= b < j ==> t@[i as int] != chars@[b],
            decreases chars.len() - j,
        {
            if t[i] == chars[j] {
                assert(target@[i as int] == chars@[j as int]);
                return true;
            }
            j = j + 1;
        }
        i = i + 1;
    }
    false
}

/// Whether `string` is one of the strings of `target`.
pub fn does_contain_string(target: &Vec<String>, string: String) -> (r: bool)
    ensures
        r == exists|i: int| 0 <= i < target@.len() && target@[i]@ == string@,
{
    let mut i: usize = 0;
    while i < target.len()
        invariant
            i <= target@.len(),
            forall|a: int| 0 <= a < i ==> target@[a]@ != string@,
        decreases target.len() - i,
    {
        if target[i] == string {
            return true;
        }
        i = i + 1;
    }
    false
}

} // verus!
