use vstd::prelude::*;

verus! {

// ---------------------------------------------------------------------------
// Whitespace and trimming
// ---------------------------------------------------------------------------

/// The bytes treated as whitespace when trimming: space, tab, newline,
/// carriage return.
pub open spec fn is_space(b: u8) -> bool {
    b == 32 || b == 9 || b == 10 || b == 13
}

/// First index at or after `i` holding a non-space byte, or `s.len()`.
pub open spec fn skip_spaces(s: Seq<u8>, i: int) -> int
    decreases s.len() - i,
{
    if 0 <= i && i < s.len() && is_space(s[i]) {
        skip_spaces(s, i + 1)
    } else {
        i
    }
}

/// Index one past the last non-space byte strictly before `i`, or `i` itself
/// when `s[i - 1]` is not a space.
pub open spec fn rskip_spaces(s: Seq<u8>, i: int) -> int
    decreases i,
{
    if 0 < i && i <= s.len() && is_space(s[i - 1]) {
        rskip_spaces(s, i - 1)
    } else {
        i
    }
}

/// `s` with leading and trailing whitespace removed.
pub open spec fn trim(s: Seq<u8>) -> Seq<u8> {
    let a = skip_spaces(s, 0);
    let b = rskip_spaces(s, s.len() as int);
    if a < b {
        s.subrange(a, b)
    } else {
        Seq::empty()
    }
}

pub proof fn lemma_skip_spaces_bounds(s: Seq<u8>, i: int)
    requires
        0 <= i <= s.len(),
    ensures
        i <= skip_spaces(s, i) <= s.len(),
        forall|j: int| i <= j < skip_spaces(s, i) ==> is_space(s[j]),
        skip_spaces(s, i) < s.len() ==> !is_space(s[skip_spaces(s, i)]),
    decreases s.len() - i,
{
    if i < s.len() && is_space(s[i]) {
        lemma_skip_spaces_bounds(s, i + 1);
    }
}

pub proof fn lemma_rskip_spaces_bounds(s: Seq<u8>, i: int)
    requires
        0 <= i <= s.len(),
    ensures
        0 <= rskip_spaces(s, i) <= i,
        forall|j: int| rskip_spaces(s, i) <= j < i ==> is_space(s[j]),
        rskip_spaces(s, i) > 0 ==> !is_space(s[rskip_spaces(s, i) - 1]),
    decreases i,
{
    if 0 < i && is_space(s[i - 1]) {
        lemma_rskip_spaces_bounds(s, i - 1);
    }
}

fn is_space_b(b: u8) -> (r: bool)
    ensures
        r == is_space(b),
{
    b == 32 || b == 9 || b == 10 || b == 13
}

/// A fresh copy of `s[a..b]`.
pub fn subvec(s: &[u8], a: usize, b: usize) -> (r: Vec<u8>)
    requires
        a <= b <= s@.len(),
    ensures
        r@ == s@.subrange(a as int, b as int),
{
    let mut r: Vec<u8> = Vec::new();
    let mut i: usize = a;
    while i < b
        invariant
            a <= i <= b <= s@.len(),
            r@ == s@.subrange(a as int, i as int),
        decreases b - i,
    {
        r.push(s[i]);
        proof {
            assert(s@.subrange(a as int, (i + 1) as int) =~= s@.subrange(a as int, i as int)
                + seq![s@[i as int]]);
        }
        i = i + 1;
    }
    r
}

/// Appends `s[a..b]` to `out`.
pub fn append_sub(out: &mut Vec<u8>, s: &[u8], a: usize, b: usize)
    requires
        a <= b <= s@.len(),
    ensures
        final(out)@ == old(out)@ + s@.subrange(a as int, b as int),
{
    let mut i: usize = a;
    while i < b
        invariant
            a <= i <= b <= s@.len(),
            out@ == old(out)@ + s@.subrange(a as int, i as int),
        decreases b - i,
    {
        out.push(s[i]);
        proof {
            assert(s@.subrange(a as int, (i + 1) as int) =~= s@.subrange(a as int, i as int)
                + seq![s@[i as int]]);
        }
        i = i + 1;
    }
    proof {
        assert(out@ =~= old(out)@ + s@.subrange(a as int, b as int));
    }
}

/// `s` trimmed of surrounding whitespace, as a fresh vector.
pub fn trim_vec(s: &[u8]) -> (r: Vec<u8>)
    ensures
        r@ == trim(s@),
{
    proof {
        lemma_skip_spaces_bounds(s@, 0);
        lemma_rskip_spaces_bounds(s@, s@.len() as int);
    }
    let mut a: usize = 0;
    while a < s.len() && is_space_b(s[a])
        invariant
            0 <= a <= s@.len(),
            skip_spaces(s@, 0) == skip_spaces(s@, a as int),
        decreases s@.len() - a,
    {
        a = a + 1;
    }
    assert(a as int == skip_spaces(s@, 0));
    if a == s.len() {
        let r: Vec<u8> = Vec::new();
        proof {
            lemma_rskip_spaces_bounds(s@, s@.len() as int);
            assert(trim(s@) =~= Seq::<u8>::empty());
        }
        return r;
    }
    let mut b: usize = s.len();
    while is_space_b(s[b - 1])
        invariant
            a < b <= s@.len(),
            a < s@.len() && !is_space(s@[a as int]),
            rskip_spaces(s@, s@.len() as int) == rskip_spaces(s@, b as int),
        decreases b,
    {
        b = b - 1;
        proof {
            if b == a {
                assert(is_space(s@[a as int]));
                assert(false);
            }
        }
    }
    assert(b as int == rskip_spaces(s@, s@.len() as int));
    subvec(s, a, b)
}

// ---------------------------------------------------------------------------
// Substring search
// ---------------------------------------------------------------------------

/// `pat` occurs in `s` starting at index `i`.
pub open spec fn match_at(s: Seq<u8>, pat: Seq<u8>, i: int) -> bool {
    0 <= i && i + pat.len() <= s.len() && s.subrange(i, i + pat.len()) == pat
}

/// Index of the first occurrence of `pat` at or after `i`, if any.
pub open spec fn find_pat(s: Seq<u8>, pat: Seq<u8>, i: int) -> Option<int>
    decreases s.len() - i,
{
    if i < 0 || i + pat.len() > s.len() {
        None
    } else if match_at(s, pat, i) {
        Some(i)
    } else if i < s.len() {
        find_pat(s, pat, i + 1)
    } else {
        None
    }
}

pub proof fn lemma_find_pat_props(s: Seq<u8>, pat: Seq<u8>, i: int)
    ensures
        find_pat(s, pat, i) matches Some(j) ==> i <= j && 0 <= j && j + pat.len() <= s.len()
            && match_at(s, pat, j),
    decreases s.len() - i,
{
    if i < 0 || i + pat.len() > s.len() {
    } else if match_at(s, pat, i) {
    } else if i < s.len() {
        lemma_find_pat_props(s, pat, i + 1);
    }
}

pub fn match_at_exec(s: &[u8], pat: &[u8], i: usize) -> (r: bool)
    ensures
        r == match_at(s@, pat@, i as int),
{
    let n = s.len();
    if pat.len() > n || i > n - pat.len() {
        return false;
    }
    let mut j: usize = 0;
    while j < pat.len()
        invariant
            i + pat@.len() <= s@.len(),
            s@.len() <= usize::MAX,
            0 <= j <= pat@.len(),
            forall|k: int| 0 <= k < j ==> s@[i + k] == pat@[k],
        decreases pat@.len() - j,
    {
        if s[i + j] != pat[j] {
            proof {
                assert(s@.subrange(i as int, i + pat@.len())[j as int] == s@[i + j]);
            }
            return false;
        }
        j = j + 1;
    }
    proof {
        assert(s@.subrange(i as int, i + pat@.len()) =~= pat@);
    }
    true
}

pub fn find_pat_exec(s: &[u8], pat: &[u8], from: usize) -> (r: Option<usize>)
    ensures
        (match r {
            Some(j) => Some(j as int),
            None => None::<int>,
        }) == find_pat(s@, pat@, from as int),
        r matches Some(j) ==> from <= j && j + pat@.len() <= s@.len(),
{
    proof {
        lemma_find_pat_props(s@, pat@, from as int);
    }
    if pat.len() > s.len() {
        return None;
    }
    if pat.len() == 0 {
        if from > s.len() {
            return None;
        }
        proof {
            assert(s@.subrange(from as int, from as int) =~= pat@);
        }
        return Some(from);
    }
    let mut i: usize = from;
    while i <= s.len() - pat.len()
        invariant
            1 <= pat@.len() <= s@.len(),
            from <= i,
            find_pat(s@, pat@, from as int) == find_pat(s@, pat@, i as int),
        decreases s@.len() - i,
    {
        if match_at_exec(s, pat, i) {
            return Some(i);
        }
        i = i + 1;
    }
    None
}

// ---------------------------------------------------------------------------
// Single-byte search
// ---------------------------------------------------------------------------

/// Index of the first occurrence of byte `b` at or after `i`, or `s.len()`.
pub open spec fn find_byte(s: Seq<u8>, i: int, b: u8) -> int
    decreases s.len() - i,
{
    if 0 <= i && i < s.len() {
        if s[i] == b {
            i
        } else {
            find_byte(s, i + 1, b)
        }
    } else {
        s.len() as int
    }
}

pub proof fn lemma_find_byte_bounds(s: Seq<u8>, i: int, b: u8)
    requires
        0 <= i <= s.len(),
    ensures
        i <= find_byte(s, i, b) <= s.len(),
        find_byte(s, i, b) < s.len() ==> s[find_byte(s, i, b)] == b,
        forall|j: int| i <= j < find_byte(s, i, b) ==> s[j] != b,
    decreases s.len() - i,
{
    if i < s.len() && s[i] != b {
        lemma_find_byte_bounds(s, i + 1, b);
    }
}

pub fn find_byte_exec(s: &[u8], from: usize, b: u8) -> (r: usize)
    requires
        from <= s@.len(),
    ensures
        r as int == find_byte(s@, from as int, b),
        from <= r <= s@.len(),
{
    proof {
        lemma_find_byte_bounds(s@, from as int, b);
    }
    let mut i: usize = from;
    while i < s.len()
        invariant
            from <= i <= s@.len(),
            find_byte(s@, from as int, b) == find_byte(s@, i as int, b),
        decreases s@.len() - i,
    {
        if s[i] == b {
            return i;
        }
        i = i + 1;
    }
    i
}

// ---------------------------------------------------------------------------
// Equality, indentation, joining
// ---------------------------------------------------------------------------

pub fn bytes_eq(a: &[u8], b: &[u8]) -> (r: bool)
    ensures
        r == (a@ == b@),
{
    if a.len() != b.len() {
        proof {
            assert(a@.len() != b@.len());
        }
        return false;
    }
    let mut i: usize = 0;
    while i < a.len()
        invariant
            a@.len() == b@.len(),
            0 <= i <= a@.len(),
            forall|k: int| 0 <= k < i ==> a@[k] == b@[k],
        decreases a@.len() - i,
    {
        if a[i] != b[i] {
            return false;
        }
        i = i + 1;
    }
    proof {
        assert(a@ =~= b@);
    }
    true
}

/// Four spaces for each level of nesting.
pub open spec fn indent_seq(n: nat) -> Seq<u8>
    decreases n,
{
    if n == 0 {
        Seq::empty()
    } else {
        indent_seq((n - 1) as nat) + seq![32u8, 32u8, 32u8, 32u8]
    }
}

pub fn push_indent(out: &mut Vec<u8>, n: usize)
    ensures
        final(out)@ == old(out)@ + indent_seq(n as nat),
{
    let mut i: usize = 0;
    proof {
        assert(out@ =~= old(out)@ + indent_seq(0));
    }
    while i < n
        invariant
            0 <= i <= n,
            out@ == old(out)@ + indent_seq(i as nat),
        decreases n - i,
    {
        out.push(32);
        out.push(32);
        out.push(32);
        out.push(32);
        proof {
            assert(out@ =~= old(out)@ + indent_seq((i + 1) as nat));
        }
        i = i + 1;
    }
}

/// The elements of `xs` up to index `i`, joined with single newlines.
pub open spec fn join_nl(xs: Seq<Seq<u8>>, i: int) -> Seq<u8>
    decreases i,
{
    if i <= 0 {
        Seq::empty()
    } else if i == 1 {
        xs[0]
    } else {
        join_nl(xs, i - 1) + seq![10u8] + xs[i - 1]
    }
}

pub fn join_nl_exec(xs: &Vec<Vec<u8>>) -> (r: Vec<u8>)
    ensures
        r@ == join_nl(Seq::new(xs@.len(), |k: int| xs@[k]@), xs@.len() as int),
{
    let ghost m = Seq::new(xs@.len(), |k: int| xs@[k]@);
    let mut r: Vec<u8> = Vec::new();
    let mut i: usize = 0;
    while i < xs.len()
        invariant
            0 <= i <= xs@.len(),
            m == Seq::new(xs@.len(), |k: int| xs@[k]@),
            r@ == join_nl(m, i as int),
        decreases xs@.len() - i,
    {
        if i > 0 {
            r.push(10);
        }
        append_sub(&mut r, xs[i].as_slice(), 0, xs[i].len());
        proof {
            assert(xs@[i as int]@.subrange(0, xs@[i as int]@.len() as int) =~= m[i as int]);
            if i == 0 {
                assert(r@ =~= join_nl(m, 1));
            } else {
                assert(r@ =~= join_nl(m, (i + 1) as int));
            }
        }
        i = i + 1;
    }
    r
}

} // verus!
