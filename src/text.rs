use vstd::prelude::*;

verus! {

/// Whether two strings hold the same characters.
pub fn same_text(a: &str, b: &str) -> (r: bool)
    ensures
        r == (a@ == b@),
{
    let n = a.unicode_len();
    if n != b.unicode_len() {
        return false;
    }
    let mut i: usize = 0;
    while i < n
        invariant
            n == a@.len(),
            n == b@.len(),
            i <= n,
            a@.subrange(0, i as int) == b@.subrange(0, i as int),
        decreases n - i,
    {
        if a.get_char(i) != b.get_char(i) {
            assert(a@[i as int] != b@[i as int]);
            return false;
        }
        assert(a@.subrange(0, i + 1) == a@.subrange(0, i as int).push(a@[i as int]));
        assert(b@.subrange(0, i + 1) == b@.subrange(0, i as int).push(b@[i as int]));
        i = i + 1;
    }
    assert(a@ == a@.subrange(0, n as int));
    assert(b@ == b@.subrange(0, n as int));
    true
}

} // verus!

verus! {

/// The code of a character under ASCII case folding: `A`..`Z` become
/// `a`..`z`, everything else is left as it is.
pub open spec fn fold_code(c: char) -> u32 {
    let x = c as u32;
    if 65 <= x && x <= 90 {
        (x + 32) as u32
    } else {
        x
    }
}

/// A string's characters under ASCII case folding: two strings are the same
/// key when they differ only in the case of ASCII letters.
pub open spec fn key_of(s: Seq<char>) -> Seq<u32> {
    Seq::new(s.len(), |i: int| fold_code(s[i]))
}

pub fn fold_char(c: char) -> (r: u32)
    ensures
        r == fold_code(c),
{
    let x = c as u32;
    if 65 <= x && x <= 90 {
        x + 32
    } else {
        x
    }
}

/// The case-folded codes of `s`.
pub fn fold_codes(s: &str) -> (r: Vec<u32>)
    ensures
        r@ == key_of(s@),
{
    let n = s.unicode_len();
    let mut r: Vec<u32> = Vec::new();
    let mut i: usize = 0;
    while i < n
        invariant
            n == s@.len(),
            i <= n,
            r@.len() == i,
            forall|x: int| 0 <= x < i ==> r@[x] == fold_code(#[trigger] s@[x]),
        decreases n - i,
    {
        r.push(fold_char(s.get_char(i)));
        i = i + 1;
    }
    assert(r@ =~= key_of(s@));
    r
}

/// Whether two code sequences are equal.
pub fn same_codes(a: &Vec<u32>, b: &Vec<u32>) -> (r: bool)
    ensures
        r == (a@ == b@),
{
    if a.len() != b.len() {
        return false;
    }
    let mut i: usize = 0;
    while i < a.len()
        invariant
            a@.len() == b@.len(),
            i <= a@.len(),
            forall|x: int| 0 <= x < i ==> a@[x] == b@[x],
        decreases a@.len() - i,
    {
        if a[i] != b[i] {
            return false;
        }
        i = i + 1;
    }
    assert(a@ =~= b@);
    true
}

} // verus!

verus! {

/// `n` occurs in `h` as a contiguous run.
pub open spec fn occurs_in(n: Seq<u32>, h: Seq<u32>) -> bool {
    exists|p: int| 0 <= p && p + n.len() <= h.len() && #[trigger] h.subrange(p, p + n.len()) == n
}

/// Whether `n` occurs in `h` starting at position `p`.
fn occurs_at(h: &Vec<u32>, n: &Vec<u32>, p: usize) -> (r: bool)
    requires
        p + n@.len() <= h@.len(),
    ensures
        r == (h@.subrange(p as int, p + n@.len()) == n@),
{
    let hl = h.len();
    let mut k: usize = 0;
    while k < n.len()
        invariant
            hl == h@.len(),
            p + n@.len() <= h@.len(),
            k <= n@.len(),
            forall|y: int| 0 <= y < k ==> h@[p + y] == n@[y],
        decreases n@.len() - k,
    {
        assert(p + k < hl);
        if h[p + k] != n[k] {
            assert(h@.subrange(p as int, p + n@.len())[k as int] != n@[k as int]);
            return false;
        }
        k = k + 1;
    }
    assert(h@.subrange(p as int, p + n@.len()) =~= n@);
    true
}

/// Whether `n` occurs in `h` as a contiguous run.
pub fn occurs(n: &Vec<u32>, h: &Vec<u32>) -> (r: bool)
    ensures
        r == occurs_in(n@, h@),
{
    if n.len() > h.len() {
        return false;
    }
    let last = h.len() - n.len();
    let mut p: usize = 0;
    while p <= last
        invariant
            last == h@.len() - n@.len(),
            p <= last + 1,
            forall|x: int| 0 <= x < p ==> #[trigger] h@.subrange(x, x + n@.len()) != n@,
        decreases last + 1 - p,
    {
        if occurs_at(h, n, p) {
            return true;
        }
        if p == last {
            return false;
        }
        p = p + 1;
    }
    false
}

} // verus!
