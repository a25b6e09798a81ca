use vstd::prelude::*;

verus! {

/// Relies on str::chars (std): the characters of a string slice, in order.
#[verifier::external_body]
pub fn str_to_chars(s: &str) -> (r: Vec<char>)
    ensures
        r@ == s@,
{
    s.chars().collect()
}

/// Relies on FromIterator for String (std): collecting characters yields the
/// string with exactly those characters, in order.
#[verifier::external_body]
pub fn chars_to_string(v: &Vec<char>) -> (r: String)
    ensures
        r@ == v@,
{
    v.iter().collect()
}

/// The first index of `s` whose element satisfies `p`; `s.len()` if none does.
pub open spec fn first_where<T>(s: Seq<T>, p: spec_fn(T) -> bool) -> int
    decreases s.len(),
{
    if s.len() == 0 {
        0
    } else if p(s[0]) {
        0
    } else {
        1 + first_where(s.skip(1), p)
    }
}

pub proof fn lemma_first_where<T>(s: Seq<T>, p: spec_fn(T) -> bool)
    ensures
        0 <= first_where(s, p) <= s.len(),
        first_where(s, p) < s.len() ==> p(s[first_where(s, p)]),
        forall|k: int| 0 <= k < first_where(s, p) ==> !p(s[k]),
    decreases s.len(),
{
    if s.len() > 0 && !p(s[0]) {
        lemma_first_where(s.skip(1), p);
        assert forall|k: int| 0 <= k < first_where(s, p) implies !p(s[k]) by {
            if k > 0 {
                assert(s.skip(1)[k - 1] == s[k]);
            }
        }
        let i = first_where(s, p);
        assert(i < s.len() ==> s.skip(1)[i - 1] == s[i]);
    }
}

/// An index that satisfies `p` while nothing before it does is exactly
/// `first_where`.
pub proof fn lemma_first_where_unique<T>(s: Seq<T>, p: spec_fn(T) -> bool, i: int)
    requires
        0 <= i < s.len(),
        p(s[i]),
        forall|k: int| 0 <= k < i ==> !p(s[k]),
    ensures
        first_where(s, p) == i,
{
    lemma_first_where(s, p);
    if first_where(s, p) < i {
        assert(p(s[first_where(s, p)]));
    }
}

/// If nothing in `s` satisfies `p`, `first_where` is `s.len()`.
pub proof fn lemma_first_where_none<T>(s: Seq<T>, p: spec_fn(T) -> bool)
    requires
        forall|k: int| 0 <= k < s.len() ==> !p(s[k]),
    ensures
        first_where(s, p) == s.len(),
{
    lemma_first_where(s, p);
}

/// The predicate "is exactly the character `c`".
pub open spec fn eq_char(c: char) -> spec_fn(char) -> bool {
    |x: char| x == c
}

/// The index of the last occurrence of `c` in `s`, or -1 if `c` does not
/// occur.
pub open spec fn last_index_of(s: Seq<char>, c: char) -> int
    decreases s.len(),
    via last_index_of_decreases
{
    let i = first_where(s, eq_char(c));
    if i == s.len() {
        -1
    } else {
        let r = last_index_of(s.skip(i + 1), c);
        if r == -1 {
            i
        } else {
            i + 1 + r
        }
    }
}

#[via_fn]
proof fn last_index_of_decreases(s: Seq<char>, c: char) {
    lemma_first_where(s, eq_char(c));
}

pub proof fn lemma_last_index_of(s: Seq<char>, c: char)
    ensures
        last_index_of(s, c) == -1 ==> forall|k: int| 0 <= k < s.len() ==> s[k] != c,
        last_index_of(s, c) != -1 ==> {
            &&& 0 <= last_index_of(s, c) < s.len()
            &&& s[last_index_of(s, c)] == c
            &&& forall|k: int| last_index_of(s, c) < k < s.len() ==> s[k] != c
        },
    decreases s.len(),
{
    let p = eq_char(c);
    lemma_first_where(s, p);
    let i = first_where(s, p);
    if i == s.len() {
        assert forall|k: int| 0 <= k < s.len() implies s[k] != c by {
            assert(!p(s[k]));
        }
    } else {
        assert(p(s[i]));
        lemma_last_index_of(s.skip(i + 1), c);
        let r = last_index_of(s.skip(i + 1), c);
        if r == -1 {
            assert forall|k: int| i < k < s.len() implies s[k] != c by {
                assert(s.skip(i + 1)[k - i - 1] == s[k]);
            }
        } else {
            assert(s.skip(i + 1)[r] == s[i + 1 + r]);
            assert forall|k: int| i + 1 + r < k < s.len() implies s[k] != c by {
                assert(s.skip(i + 1)[k - i - 1] == s[k]);
            }
        }
    }
}

/// A candidate index that is an occurrence of `c` with no later occurrence is
/// exactly `last_index_of`.
pub proof fn lemma_last_index_of_unique(s: Seq<char>, c: char, i: int)
    requires
        0 <= i < s.len(),
        s[i] == c,
        forall|k: int| i < k < s.len() ==> s[k] != c,
    ensures
        last_index_of(s, c) == i,
{
    lemma_last_index_of(s, c);
    let l = last_index_of(s, c);
    if l == -1 {
    } else if l < i {
    } else if l > i {
    }
}

/// Everything after the last occurrence of `sep`; the whole of `s` when `sep`
/// does not occur.
pub open spec fn last_segment(s: Seq<char>, sep: char) -> Seq<char> {
    s.skip(last_index_of(s, sep) + 1)
}

/// Everything before the last occurrence of `sep`; empty when `sep` does not
/// occur.
pub open spec fn dir_part(s: Seq<char>, sep: char) -> Seq<char> {
    if last_index_of(s, sep) == -1 {
        Seq::empty()
    } else {
        s.take(last_index_of(s, sep))
    }
}

/// Scans `v` for the last occurrence of `sep`.
pub fn find_last(v: &Vec<char>, sep: char) -> (r: Option<usize>)
    ensures
        match r {
            Some(i) => i == last_index_of(v@, sep) && i < v@.len(),
            None => last_index_of(v@, sep) == -1,
        },
{
    let mut k: usize = v.len();
    while k > 0
        invariant
            k <= v@.len(),
            forall|m: int| k <= m < v@.len() ==> v@[m] != sep,
        decreases k,
    {
        k = k - 1;
        if v[k] == sep {
            proof {
                lemma_last_index_of_unique(v@, sep, k as int);
            }
            return Some(k);
        }
    }
    proof {
        lemma_last_index_of(v@, sep);
    }
    None
}

/// Copies the characters of `s` between `a` and `b`.
pub fn copy_range(s: &Vec<char>, a: usize, b: usize) -> (r: Vec<char>)
    requires
        a <= b <= s@.len(),
    ensures
        r@ == s@.subrange(a as int, b as int),
{
    let mut r: Vec<char> = Vec::new();
    let mut k: usize = a;
    while k < b
        invariant
            a <= k <= b <= s@.len(),
            r@ == s@.subrange(a as int, k as int),
        decreases b - k,
    {
        r.push(s[k]);
        proof {
            assert(s@.subrange(a as int, k + 1) =~= s@.subrange(a as int, k as int).push(
                s@[k as int],
            ));
        }
        k = k + 1;
    }
    proof {
        assert(r@ =~= s@.subrange(a as int, b as int));
    }
    r
}

/// Appends every character of `v` to `out`.
pub fn append_chars(out: &mut Vec<char>, v: &Vec<char>)
    ensures
        final(out)@ == old(out)@ + v@,
{
    let mut k: usize = 0;
    while k < v.len()
        invariant
            k <= v@.len(),
            out@ == old(out)@ + v@.take(k as int),
        decreases v@.len() - k,
    {
        out.push(v[k]);
        proof {
            assert(v@.take(k + 1) =~= v@.take(k as int).push(v@[k as int]));
            assert(old(out)@ + v@.take(k + 1) =~= (old(out)@ + v@.take(k as int)).push(
                v@[k as int],
            ));
        }
        k = k + 1;
    }
    proof {
        assert(v@.take(v@.len() as int) =~= v@);
    }
}

/// The decimal digit characters of `n`, most significant first.
pub open spec fn dec_digits(n: nat) -> Seq<char>
    decreases n,
{
    if n < 10 {
        seq![digit_char(n)]
    } else {
        dec_digits(n / 10).push(digit_char(n % 10))
    }
}

pub open spec fn digit_char(d: nat) -> char {
    if d == 0 {
        '0'
    } else if d == 1 {
        '1'
    } else if d == 2 {
        '2'
    } else if d == 3 {
        '3'
    } else if d == 4 {
        '4'
    } else if d == 5 {
        '5'
    } else if d == 6 {
        '6'
    } else if d == 7 {
        '7'
    } else if d == 8 {
        '8'
    } else {
        '9'
    }
}

fn digit_char_exec(d: u64) -> (c: char)
    requires
        d < 10,
    ensures
        c == digit_char(d as nat),
{
    if d == 0 {
        '0'
    } else if d == 1 {
        '1'
    } else if d == 2 {
        '2'
    } else if d == 3 {
        '3'
    } else if d == 4 {
        '4'
    } else if d == 5 {
        '5'
    } else if d == 6 {
        '6'
    } else if d == 7 {
        '7'
    } else if d == 8 {
        '8'
    } else {
        '9'
    }
}

/// Appends the decimal digits of `n` to `out`.
pub fn push_dec(out: &mut Vec<char>, n: u64)
    ensures
        final(out)@ == old(out)@ + dec_digits(n as nat),
    decreases n,
{
    if n < 10 {
        out.push(digit_char_exec(n));
        assert(out@ =~= old(out)@ + dec_digits(n as nat));
    } else {
        push_dec(out, n / 10);
        out.push(digit_char_exec(n % 10));
        assert(out@ =~= old(out)@ + dec_digits(n as nat));
    }
}

/// Strict lexicographic order on character sequences, by code point.
pub open spec fn lex_lt(a: Seq<char>, b: Seq<char>) -> bool
    decreases a.len(),
{
    if b.len() == 0 {
        false
    } else if a.len() == 0 {
        true
    } else if (a[0] as u32) != (b[0] as u32) {
        (a[0] as u32) < (b[0] as u32)
    } else {
        lex_lt(a.skip(1), b.skip(1))
    }
}

/// No sequence is lexicographically below itself.
pub proof fn lemma_lex_lt_irrefl(a: Seq<char>)
    ensures
        !lex_lt(a, a),
    decreases a.len(),
{
    if a.len() > 0 {
        lemma_lex_lt_irrefl(a.skip(1));
    }
}

/// Decides `lex_lt` on two character vectors.
pub fn lex_lt_exec(a: &Vec<char>, b: &Vec<char>) -> (r: bool)
    ensures
        r == lex_lt(a@, b@),
{
    let mut i: usize = 0;
    proof {
        assert(a@.skip(0) =~= a@);
        assert(b@.skip(0) =~= b@);
    }
    loop
        invariant
            i <= a@.len(),
            i <= b@.len(),
            lex_lt(a@, b@) == lex_lt(a@.skip(i as int), b@.skip(i as int)),
            forall|k: int| 0 <= k < i ==> (a@[k] as u32) == (b@[k] as u32),
        decreases a@.len() - i,
    {
        if i == b.len() {
            assert(b@.skip(i as int).len() == 0);
            return false;
        }
        if i == a.len() {
            assert(a@.skip(i as int).len() == 0);
            return true;
        }
        let ca = a[i] as u32;
        let cb = b[i] as u32;
        assert(a@.skip(i as int)[0] == a@[i as int]);
        assert(b@.skip(i as int)[0] == b@[i as int]);
        if ca != cb {
            return ca < cb;
        }
        assert(a@.skip(i as int).skip(1) =~= a@.skip(i + 1));
        assert(b@.skip(i as int).skip(1) =~= b@.skip(i + 1));
        i = i + 1;
    }
}

} // verus!
