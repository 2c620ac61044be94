//! The order in which tile pictures found in a directory are assigned to
//! faces: by name, in lexicographic byte order.
use vstd::prelude::*;

verus! {

/// `a` sorts no later than `b` when both are compared from position `i`
/// on: at the first position where they differ, `a` has the smaller byte,
/// or `a` ends first.
pub open spec fn lex_le_from(a: Seq<u8>, b: Seq<u8>, i: int) -> bool
    decreases a.len() - i,
{
    if i < 0 || i >= a.len() {
        true
    } else if i >= b.len() {
        false
    } else if a[i] != b[i] {
        a[i] < b[i]
    } else {
        lex_le_from(a, b, i + 1)
    }
}

/// Lexicographic byte order: `a` sorts no later than `b`.
pub open spec fn lex_le(a: Seq<u8>, b: Seq<u8>) -> bool {
    lex_le_from(a, b, 0)
}

proof fn lemma_lex_total(a: Seq<u8>, b: Seq<u8>, i: int)
    requires
        i >= 0,
    ensures
        lex_le_from(a, b, i) || lex_le_from(b, a, i),
    decreases a.len() - i,
{
    if i < a.len() && i < b.len() && a[i] == b[i] {
        lemma_lex_total(a, b, i + 1);
    }
}

proof fn lemma_lex_transitive(a: Seq<u8>, b: Seq<u8>, c: Seq<u8>, i: int)
    requires
        i >= 0,
        lex_le_from(a, b, i),
        lex_le_from(b, c, i),
    ensures
        lex_le_from(a, c, i),
    decreases a.len() - i,
{
    if i < a.len() && i < b.len() && i < c.len() && a[i] == b[i] && b[i] == c[i] {
        lemma_lex_transitive(a, b, c, i + 1);
    }
}

/// Whether `a` sorts no later than `b`.
pub fn name_le(a: &Vec<u8>, b: &Vec<u8>) -> (r: bool)
    ensures
        r == lex_le(a@, b@),
{
    let mut i: usize = 0;
    while i < a.len() && i < b.len() && a[i] == b[i]
        invariant
            0 <= i <= a@.len(),
            i <= b@.len(),
            lex_le(a@, b@) == lex_le_from(a@, b@, i as int),
        decreases a@.len() - i,
    {
        i = i + 1;
    }
    if i == a.len() {
        true
    } else if i == b.len() {
        false
    } else {
        a[i] < b[i]
    }
}

/// The positions of `names` listed in sorted name order: every position
/// appears once, and the names they point to never decrease.
pub fn tile_file_order(names: &Vec<Vec<u8>>) -> (r: Vec<usize>)
    ensures
        r@.len() == names@.len(),
        forall|i: int| 0 <= i < r@.len() ==> r@[i] < names@.len(),
        forall|i: int, j: int| 0 <= i < j < r@.len() ==> r@[i] != r@[j],
        forall|i: int, j: int|
            0 <= i < j < r@.len() ==> lex_le(
                #[trigger] names@[r@[i] as int]@,
                #[trigger] names@[r@[j] as int]@,
            ),
{
    let n = names.len();
    let mut order: Vec<usize> = Vec::new();
    let mut k: usize = 0;
    while k < n
        invariant
            n == names@.len(),
            0 <= k <= n,
            order@.len() == k,
            forall|i: int| 0 <= i < k ==> order@[i] == i,
        decreases n - k,
    {
        order.push(k);
        k = k + 1;
    }
    let mut i: usize = 0;
    while i < n
        invariant
            n == names@.len(),
            0 <= i <= n,
            order@.len() == n,
            forall|a: int| 0 <= a < n ==> order@[a] < n,
            forall|a: int, b: int| 0 <= a < b < n ==> order@[a] != order@[b],
            forall|a: int, b: int|
                0 <= a < b < n && a < i ==> lex_le(
                    #[trigger] names@[order@[a] as int]@,
                    #[trigger] names@[order@[b] as int]@,
                ),
        decreases n - i,
    {
        let mut m: usize = i;
        let mut j: usize = i + 1;
        proof {
            let ni = names@[order@[i as int] as int]@;
            lemma_lex_total(ni, ni, 0);
        }
        while j < n
            invariant
                n == names@.len(),
                0 <= i < n,
                i <= m < n,
                i < j <= n,
                m < j,
                order@.len() == n,
                forall|a: int| 0 <= a < n ==> order@[a] < n,
                forall|b: int|
                    i <= b < j ==> lex_le(
                        names@[order@[m as int] as int]@,
                        #[trigger] names@[order@[b] as int]@,
                    ),
            decreases n - j,
        {
            if !name_le(&names[order[m]], &names[order[j]]) {
                proof {
                    let nm = names@[order@[m as int] as int]@;
                    let nj = names@[order@[j as int] as int]@;
                    lemma_lex_total(nm, nj, 0);
                    assert forall|b: int| i <= b <= j implies lex_le(
                        nj,
                        #[trigger] names@[order@[b] as int]@,
                    ) by {
                        if b < j {
                            lemma_lex_transitive(nj, nm, names@[order@[b] as int]@, 0);
                        } else {
                            lemma_lex_total(nj, nj, 0);
                        }
                    }
                }
                m = j;
            }
            j = j + 1;
        }
        let a = order[i];
        let b = order[m];
        order.set(i, b);
        order.set(m, a);
        i = i + 1;
    }
    order
}

} // verus!
