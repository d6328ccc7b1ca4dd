use vstd::prelude::*;

verus! {

broadcast use vstd::string::axiom_spec_iter;

/// The characters of a string, in order.
pub fn chars_of(s: &str) -> (v: Vec<char>)
    ensures
        v@ == s@,
{
    let mut v: Vec<char> = Vec::new();
    for c in it: s.chars()
        invariant
            v@ == it.seq().take(it.index()),
            it.seq() == s@,
    {
        v.push(c);
    }
    v
}

/// Appends a character to a string: `String::push`, which adds `c` at the end.
#[verifier::external_body]
fn push_char(s: &mut String, c: char)
    ensures
        final(s)@ == old(s)@.push(c),
{
    s.push(c);
}

/// The string made of these characters, in order.
pub fn string_of(cs: &Vec<char>) -> (s: String)
    ensures
        s@ == cs@,
{
    let mut s = String::new();
    let n = cs.len();
    for i in 0..n
        invariant
            n == cs.len(),
            s@ == cs@.take(i as int),
    {
        push_char(&mut s, cs[i]);
        assert(cs@.take(i + 1) == cs@.take(i as int).push(cs@[i as int]));
    }
    assert(cs@.take(n as int) == cs@);
    s
}

/// Position of the first `c` in `s`, or the length of `s` if there is none.
pub open spec fn index_of_char(s: Seq<char>, c: char) -> int
    decreases s.len(),
{
    if s.len() == 0 {
        0
    } else if s[0] == c {
        0
    } else {
        1 + index_of_char(s.drop_first(), c)
    }
}

/// Where `index_of_char` lands.
pub proof fn lemma_index_of_char(s: Seq<char>, c: char)
    ensures
        0 <= index_of_char(s, c) <= s.len(),
        index_of_char(s, c) < s.len() ==> s[index_of_char(s, c)] == c,
        forall|k: int| 0 <= k < index_of_char(s, c) ==> s[k] != c,
    decreases s.len(),
{
    if s.len() > 0 && s[0] != c {
        lemma_index_of_char(s.drop_first(), c);
        assert forall|k: int| 0 <= k < index_of_char(s, c) implies s[k] != c by {
            if k > 0 {
                assert(s[k] == s.drop_first()[k - 1]);
            }
        }
    }
}

/// The pieces of `s` between occurrences of `sep`: `s.split(sep)`.
pub open spec fn split_char(s: Seq<char>, sep: char) -> Seq<Seq<char>>
    decreases s.len(),
{
    let j = index_of_char(s, sep);
    if j >= s.len() {
        seq![s]
    } else {
        proof {
            lemma_index_of_char(s, sep);
        }
        seq![s.take(j)] + split_char(s.skip(j + 1), sep)
    }
}

/// Position of the first `c` in `s` from `start` on, or the length of `s`.
pub fn find_char(s: &Vec<char>, c: char, start: usize) -> (j: usize)
    requires
        start <= s@.len(),
    ensures
        j == start + index_of_char(s@.skip(start as int), c),
        start <= j <= s@.len(),
{
    let n = s.len();
    let mut j = start;
    proof {
        lemma_index_of_char(s@.skip(start as int), c);
    }
    while j < n && s[j] != c
        invariant
            n == s.len(),
            start <= j <= n,
            forall|k: int| start <= k < j ==> s@[k] != c,
        decreases n - j,
    {
        j = j + 1;
    }
    proof {
        let t = s@.skip(start as int);
        lemma_index_of_char(t, c);
        let idx = index_of_char(t, c);
        if idx < j - start {
            assert(t[idx] == s@[start + idx]);
        }
        if j - start < idx {
            assert(t[j - start] == s@[j as int]);
        }
    }
    j
}

/// `s` with every non-overlapping occurrence of `pat`, scanning from position
/// `i` left to right, replaced by `rep`.
pub open spec fn replace_from(s: Seq<char>, pat: Seq<char>, rep: Seq<char>, i: int) -> Seq<char>
    decreases s.len() - i,
{
    if i >= s.len() || i < 0 {
        Seq::empty()
    } else if pat.len() > 0 && i + pat.len() <= s.len() && s.subrange(i, i + pat.len()) == pat {
        rep + replace_from(s, pat, rep, i + pat.len())
    } else {
        seq![s[i]] + replace_from(s, pat, rep, i + 1)
    }
}

/// `s` with every non-overlapping occurrence of `pat`, scanning left to
/// right, replaced by `rep`: `s.replace(pat, rep)`.
pub open spec fn replace_all(s: Seq<char>, pat: Seq<char>, rep: Seq<char>) -> Seq<char> {
    replace_from(s, pat, rep, 0)
}

/// Replaces every non-overlapping occurrence of the three-character `pat`,
/// left to right, by the character `rep`.
pub fn replace_code(s: &Vec<char>, pat: [char; 3], rep: char) -> (out: Vec<char>)
    ensures
        out@ == replace_all(s@, pat@, seq![rep]),
{
    let n = s.len();
    let mut out: Vec<char> = Vec::new();
    let mut i: usize = 0;
    while i < n
        invariant
            n == s.len(),
            i <= n,
            out@ + replace_from(s@, pat@, seq![rep], i as int) == replace_all(s@, pat@, seq![rep]),
        decreases n - i,
    {
        if n - i >= 3 && s[i] == pat[0] && s[i + 1] == pat[1] && s[i + 2] == pat[2] {
            assert(s@.subrange(i as int, i + 3) =~= pat@);
            out.push(rep);
            proof {
                assert(out@ + replace_from(s@, pat@, seq![rep], i + 3) =~= out@.drop_last() + (seq![rep]
                    + replace_from(s@, pat@, seq![rep], i + 3)));
            }
            i = i + 3;
        } else {
            proof {
                if n - i >= 3 {
                    assert(s@.subrange(i as int, i + 3) != pat@) by {
                        if s@[i as int] != pat[0] {
                            assert(s@.subrange(i as int, i + 3)[0] == s@[i as int]);
                        } else if s@[i + 1] != pat[1] {
                            assert(s@.subrange(i as int, i + 3)[1] == s@[i + 1]);
                        } else {
                            assert(s@.subrange(i as int, i + 3)[2] == s@[i + 2]);
                        }
                    }
                }
            }
            let c = s[i];
            out.push(c);
            proof {
                assert(out@ + replace_from(s@, pat@, seq![rep], i + 1) =~= out@.drop_last() + (seq![c]
                    + replace_from(s@, pat@, seq![rep], i + 1)));
            }
            i = i + 1;
        }
    }
    assert(out@ + replace_from(s@, pat@, seq![rep], i as int) == out@ + Seq::<char>::empty());
    assert(out@ + Seq::<char>::empty() =~= out@);
    out
}

/// The value of a decimal digit.
pub open spec fn digit_value(c: char) -> int {
    c as int - '0' as int
}

/// Whether `c` is one of `0` to `9`.
pub open spec fn is_digit(c: char) -> bool {
    '0' <= c <= '9'
}

/// Whether every character of `d` is a decimal digit.
pub open spec fn all_digits(d: Seq<char>) -> bool {
    forall|i: int| 0 <= i < d.len() ==> is_digit(#[trigger] d[i])
}

/// The number that the decimal digits `d` write, most significant first.
pub open spec fn digits_value(d: Seq<char>) -> int
    decreases d.len(),
{
    if d.len() == 0 {
        0
    } else {
        10 * digits_value(d.drop_last()) + digit_value(d.last())
    }
}

/// The sign and the digits of a decimal numeral: a leading `-` (where
/// `signed`) or `+` is taken off.
pub open spec fn split_sign(s: Seq<char>, signed: bool) -> (bool, Seq<char>) {
    if s.len() > 0 && s[0] == '+' {
        (false, s.drop_first())
    } else if signed && s.len() > 0 && s[0] == '-' {
        (true, s.drop_first())
    } else {
        (false, s)
    }
}

/// The number that the decimal numeral `s` writes, where it is one: an
/// optional sign (`-` only where `signed`) followed by at least one digit
/// and nothing else.
pub open spec fn numeral_value(s: Seq<char>, signed: bool) -> Option<int> {
    let (negative, d) = split_sign(s, signed);
    if d.len() == 0 || !all_digits(d) {
        None
    } else if negative {
        Some(-digits_value(d))
    } else {
        Some(digits_value(d))
    }
}

/// The `i32` that `s` writes in decimal, as `str::parse::<i32>` reads it:
/// `None` where `s` is no numeral or its number does not fit.
pub open spec fn i32_of(s: Seq<char>) -> Option<i32> {
    match numeral_value(s, true) {
        Some(v) => if i32::MIN <= v <= i32::MAX { Some(v as i32) } else { None },
        None => None,
    }
}

/// The `u32` that `s` writes in decimal, as `str::parse::<u32>` reads it:
/// `None` where `s` is no numeral or its number does not fit.
pub open spec fn u32_of(s: Seq<char>) -> Option<u32> {
    match numeral_value(s, false) {
        Some(v) => if 0 <= v <= u32::MAX { Some(v as u32) } else { None },
        None => None,
    }
}

/// Above this, a numeral fits neither an `i32` nor a `u32`.
pub const DIGITS_CAP: u64 = 0x1_0000_0000;

/// The value of the digits `s[start..]`, capped at `DIGITS_CAP`; `None`
/// where there are none or one of them is no digit.
fn capped_digits(s: &Vec<char>, start: usize) -> (r: Option<u64>)
    requires
        start <= s@.len(),
    ensures
        ({
            let d = s@.skip(start as int);
            match r {
                Some(v) => d.len() > 0 && all_digits(d) && v == if digits_value(d) >= DIGITS_CAP {
                    DIGITS_CAP as int
                } else {
                    digits_value(d)
                },
                None => d.len() == 0 || !all_digits(d),
            }
        }),
{
    let n = s.len();
    if start == n {
        return None;
    }
    let mut acc: u64 = 0;
    let mut i = start;
    while i < n
        invariant
            n == s.len(),
            start <= i <= n,
            all_digits(s@.subrange(start as int, i as int)),
            acc == if digits_value(s@.subrange(start as int, i as int)) >= DIGITS_CAP {
                DIGITS_CAP as int
            } else {
                digits_value(s@.subrange(start as int, i as int))
            },
            digits_value(s@.subrange(start as int, i as int)) >= 0,
        decreases n - i,
    {
        let c = s[i];
        let ghost prev = s@.subrange(start as int, i as int);
        let ghost next = s@.subrange(start as int, i + 1);
        assert(next.drop_last() =~= prev);
        if !('0' <= c && c <= '9') {
            proof {
                let d = s@.skip(start as int);
                assert(d[i - start] == c);
            }
            return None;
        }
        let dv = (c as u32 - '0' as u32) as u64;
        if acc < DIGITS_CAP {
            let x = acc * 10 + dv;
            acc = if x >= DIGITS_CAP { DIGITS_CAP } else { x };
        }
        i = i + 1;
        proof {
            assert forall|k: int| 0 <= k < next.len() implies is_digit(#[trigger] next[k]) by {
                if k < prev.len() {
                    assert(next[k] == prev[k]);
                }
            }
        }
    }
    assert(s@.subrange(start as int, n as int) =~= s@.skip(start as int));
    Some(acc)
}

/// Reads a decimal `i32`, as `str::parse::<i32>` does.
pub fn parse_i32(s: &Vec<char>) -> (r: Option<i32>)
    ensures
        r == i32_of(s@),
{
    let n = s.len();
    let mut start: usize = 0;
    let mut negative = false;
    if n > 0 && s[0] == '+' {
        start = 1;
    } else if n > 0 && s[0] == '-' {
        start = 1;
        negative = true;
    }
    assert(split_sign(s@, true) == (negative, s@.skip(start as int)));
    match capped_digits(s, start) {
        None => None,
        Some(v) => {
            if negative {
                if v <= 0x8000_0000 {
                    Some((0 - v as i64) as i32)
                } else {
                    None
                }
            } else {
                if v <= 0x7fff_ffff {
                    Some(v as i32)
                } else {
                    None
                }
            }
        },
    }
}

/// Reads a decimal `u32`, as `str::parse::<u32>` does.
pub fn parse_u32(s: &Vec<char>) -> (r: Option<u32>)
    ensures
        r == u32_of(s@),
{
    let n = s.len();
    let mut start: usize = 0;
    if n > 0 && s[0] == '+' {
        start = 1;
    }
    assert(split_sign(s@, false) == (false, s@.skip(start as int)));
    match capped_digits(s, start) {
        None => None,
        Some(v) => {
            if v <= 0xffff_ffff {
                Some(v as u32)
            } else {
                None
            }
        },
    }
}

/// The first piece of a split is everything before the first separator.
pub proof fn lemma_split_first(s: Seq<char>, sep: char)
    ensures
        split_char(s, sep).len() >= 1,
        split_char(s, sep)[0] == s.take(index_of_char(s, sep)),
{
    lemma_index_of_char(s, sep);
    let j = index_of_char(s, sep);
    if j >= s.len() {
        assert(s.take(j) =~= s);
    }
}

/// One step of a split: where `sep` occurs, the pieces are the part before
/// it and then the pieces of the rest.
pub proof fn lemma_split_step(s: Seq<char>, sep: char)
    requires
        index_of_char(s, sep) < s.len(),
    ensures
        split_char(s, sep) == seq![s.take(index_of_char(s, sep))] + split_char(
            s.skip(index_of_char(s, sep) + 1),
            sep,
        ),
{
    lemma_index_of_char(s, sep);
}

/// A string without `sep` is one piece.
pub proof fn lemma_split_last(s: Seq<char>, sep: char)
    requires
        index_of_char(s, sep) >= s.len(),
    ensures
        split_char(s, sep) == seq![s],
{
}

/// The characters `s[a..b]`.
pub fn sub_chars(s: &Vec<char>, a: usize, b: usize) -> (v: Vec<char>)
    requires
        a <= b <= s@.len(),
    ensures
        v@ == s@.subrange(a as int, b as int),
{
    let mut v: Vec<char> = Vec::new();
    let mut i = a;
    while i < b
        invariant
            a <= i <= b,
            b <= s@.len(),
            v@ == s@.subrange(a as int, i as int),
        decreases b - i,
    {
        v.push(s[i]);
        i = i + 1;
        assert(v@ =~= s@.subrange(a as int, i as int));
    }
    v
}

/// Whether `a` and `b` hold the same characters.
pub fn same_chars<const N: usize>(a: &Vec<char>, b: &[char; N]) -> (r: bool)
    ensures
        r == (a@ == b@),
{
    if a.len() != N {
        assert(b@.len() == N);
        return false;
    }
    let mut i: usize = 0;
    while i < N
        invariant
            a@.len() == N,
            b@.len() == N,
            i <= N,
            forall|k: int| 0 <= k < i ==> a@[k] == b@[k],
        decreases N - i,
    {
        if a[i] != b[i] {
            assert(a@[i as int] != b@[i as int]);
            return false;
        }
        i = i + 1;
    }
    assert(a@ =~= b@);
    true
}

/// Whether `s` begins with the characters of `p`.
pub fn starts_with_chars<const N: usize>(s: &Vec<char>, p: &[char; N]) -> (r: bool)
    ensures
        r == (N <= s@.len() && s@.take(N as int) == p@),
{
    if s.len() < N {
        return false;
    }
    let mut i: usize = 0;
    while i < N
        invariant
            N <= s@.len(),
            p@.len() == N,
            i <= N,
            forall|k: int| 0 <= k < i ==> s@[k] == p@[k],
        decreases N - i,
    {
        if s[i] != p[i] {
            assert(s@.take(N as int)[i as int] != p@[i as int]);
            return false;
        }
        i = i + 1;
    }
    assert(s@.take(N as int) =~= p@);
    true
}

/// `pat` stands in `s` at position `i`.
pub open spec fn occurs_at(s: Seq<char>, pat: Seq<char>, i: int) -> bool {
    0 <= i && i + pat.len() <= s.len() && s.subrange(i, i + pat.len()) == pat
}

/// `pat` stands nowhere in `s`.
pub open spec fn free_of(s: Seq<char>, pat: Seq<char>) -> bool {
    forall|i: int| !#[trigger] occurs_at(s, pat, i)
}

/// Replacing a pattern that does not occur changes nothing.
pub proof fn lemma_replace_absent(s: Seq<char>, pat: Seq<char>, rep: Seq<char>, i: int)
    requires
        pat.len() > 0,
        free_of(s, pat),
        0 <= i <= s.len(),
    ensures
        replace_from(s, pat, rep, i) == s.skip(i),
    decreases s.len() - i,
{
    if i < s.len() {
        assert(!occurs_at(s, pat, i));
        lemma_replace_absent(s, pat, rep, i + 1);
        assert(seq![s[i]] + s.skip(i + 1) =~= s.skip(i));
    } else {
        assert(s.skip(i) =~= Seq::<char>::empty());
    }
}

/// What replacing the three-character escape `p` (beginning with `%`) by a
/// character `c` gives from position `i` on: it holds no escape `q` that
/// begins with `%`, does not hold `c` and occurs in `s` only where `p` does;
/// and its first two characters, unless they are `c`, are those of `s`.
pub proof fn lemma_replace_frees(s: Seq<char>, p: Seq<char>, c: char, q: Seq<char>, i: int)
    requires
        p.len() == 3,
        q.len() == 3,
        q[0] == '%',
        c != q[0] && c != q[1] && c != q[2],
        forall|k: int| occurs_at(s, q, k) ==> occurs_at(s, p, k),
        0 <= i <= s.len(),
    ensures
        free_of(replace_from(s, p, seq![c], i), q),
        replace_from(s, p, seq![c], i).len() >= 1 ==> i < s.len() && (replace_from(s, p, seq![c], i)[0] == c
            || replace_from(s, p, seq![c], i)[0] == s[i]),
        replace_from(s, p, seq![c], i).len() >= 2 && replace_from(s, p, seq![c], i)[0] != c
            && replace_from(s, p, seq![c], i)[1] != c ==> i + 1 < s.len() && replace_from(s, p, seq![c], i)[0] == s[i]
            && replace_from(s, p, seq![c], i)[1] == s[i + 1],
    decreases s.len() - i,
{
    let out = replace_from(s, p, seq![c], i);
    if i >= s.len() {
        assert forall|k: int| !#[trigger] occurs_at(out, q, k) by {}
    } else if i + 3 <= s.len() && s.subrange(i, i + 3) == p {
        lemma_replace_frees(s, p, c, q, i + 3);
        let rest = replace_from(s, p, seq![c], i + 3);
        assert(out == seq![c] + rest);
        assert forall|k: int| !#[trigger] occurs_at(out, q, k) by {
            if occurs_at(out, q, k) {
                if k == 0 {
                    assert(out.subrange(0, 3)[0] == c);
                } else {
                    assert(out.subrange(k, k + 3) =~= rest.subrange(k - 1, k + 2));
                    assert(occurs_at(rest, q, k - 1));
                }
            }
        }
    } else {
        lemma_replace_frees(s, p, c, q, i + 1);
        let rest = replace_from(s, p, seq![c], i + 1);
        assert(out == seq![s[i]] + rest);
        assert forall|k: int| !#[trigger] occurs_at(out, q, k) by {
            if occurs_at(out, q, k) {
                if k == 0 {
                    let w = out.subrange(0, 3);
                    assert(w[0] == s[i]);
                    assert(w[1] == rest[0]);
                    assert(w[2] == rest[1]);
                    assert(s.subrange(i, i + 3) =~= q);
                    assert(occurs_at(s, q, i));
                } else {
                    assert(out.subrange(k, k + 3) =~= rest.subrange(k - 1, k + 2));
                    assert(occurs_at(rest, q, k - 1));
                }
            }
        }
    }
}

/// How many times `pat` stands in `s` at a position from `i` on.
pub open spec fn count_from(s: Seq<char>, pat: Seq<char>, i: int) -> nat
    decreases s.len() - i,
{
    if i < 0 || i >= s.len() {
        0
    } else {
        count_from(s, pat, i + 1) + if occurs_at(s, pat, i) { 1nat } else { 0nat }
    }
}

/// An escape: three characters, of which only the first is `%`.
pub open spec fn is_escape(p: Seq<char>) -> bool {
    p.len() == 3 && p[0] == '%' && p[1] != '%' && p[2] != '%'
}

/// Counting in `[x] + t` from position 1 is counting in `t`.
pub proof fn lemma_count_shift(x: char, t: Seq<char>, pat: Seq<char>, i: int)
    requires
        0 <= i <= t.len(),
    ensures
        count_from(seq![x] + t, pat, i + 1) == count_from(t, pat, i),
    decreases t.len() - i,
{
    let u = seq![x] + t;
    if i < t.len() {
        lemma_count_shift(x, t, pat, i + 1);
        if i + pat.len() <= t.len() {
            assert(u.subrange(i + 1, i + 1 + pat.len()) =~= t.subrange(i, i + pat.len()));
        }
    }
}

/// Replacing every escape `p` by one character removes two characters for
/// each time `p` stands in `s`.
pub proof fn lemma_replace_len(s: Seq<char>, p: Seq<char>, c: char, i: int)
    requires
        is_escape(p),
        0 <= i <= s.len(),
    ensures
        replace_from(s, p, seq![c], i).len() == s.len() - i - 2 * count_from(s, p, i),
    decreases s.len() - i,
{
    if i < s.len() {
        if i + 3 <= s.len() && s.subrange(i, i + 3) == p {
            lemma_replace_len(s, p, c, i + 3);
            assert(s.subrange(i, i + 3)[1] == s[i + 1]);
            assert(s.subrange(i, i + 3)[2] == s[i + 2]);
            if i + 1 + 3 <= s.len() {
                assert(s.subrange(i + 1, i + 4)[0] == s[i + 1]);
            }
            if i + 2 + 3 <= s.len() {
                assert(s.subrange(i + 2, i + 5)[0] == s[i + 2]);
            }
            assert(!occurs_at(s, p, i + 1));
            assert(!occurs_at(s, p, i + 2));
            assert(count_from(s, p, i + 2) == count_from(s, p, i + 3));
            assert(count_from(s, p, i + 1) == count_from(s, p, i + 2));
            assert(count_from(s, p, i) == count_from(s, p, i + 3) + 1);
        } else {
            lemma_replace_len(s, p, c, i + 1);
            assert(!occurs_at(s, p, i));
        }
    }
}

/// The first characters of what replacing the escape `p` by `c` gives from
/// position `i` on: each is `c` or the character of `s` there, and
/// characters of `s` other than `%` come through as they are.
proof fn lemma_rest_prefix(s: Seq<char>, p: Seq<char>, c: char, i: int)
    requires
        is_escape(p),
        0 <= i <= s.len(),
    ensures
        ({
            let out = replace_from(s, p, seq![c], i);
            &&& i < s.len() ==> out.len() >= 1
            &&& out.len() >= 1 ==> i < s.len() && (out[0] == c || out[0] == s[i])
            &&& i < s.len() && s[i] != '%' ==> out[0] == s[i]
            &&& out.len() >= 2 && out[0] != c && out[1] != c ==> i + 1 < s.len() && out[0] == s[i] && out[1] == s[i + 1]
            &&& i + 1 < s.len() && s[i] != '%' && s[i + 1] != '%' ==> out.len() >= 2 && out[0] == s[i] && out[1] == s[i + 1]
        }),
    decreases s.len() - i,
{
    if i < s.len() {
        lemma_rest_prefix(s, p, c, i + 1);
        if i + 3 <= s.len() && s.subrange(i, i + 3) == p {
            assert(s.subrange(i, i + 3)[0] == s[i]);
        }
    }
}

/// Replacing every escape `p` by a character `c` that stands in no escape
/// `q` keeps the count of `q`, where `q` is another escape.
pub proof fn lemma_replace_keeps_count(s: Seq<char>, p: Seq<char>, c: char, q: Seq<char>, i: int)
    requires
        is_escape(p),
        is_escape(q),
        p != q,
        c != q[0] && c != q[1] && c != q[2],
        0 <= i <= s.len(),
    ensures
        count_from(replace_from(s, p, seq![c], i), q, 0) == count_from(s, q, i),
    decreases s.len() - i,
{
    let out = replace_from(s, p, seq![c], i);
    if i >= s.len() {
        assert(out.len() == 0);
    } else if i + 3 <= s.len() && s.subrange(i, i + 3) == p {
        lemma_replace_keeps_count(s, p, c, q, i + 3);
        let rest = replace_from(s, p, seq![c], i + 3);
        assert(out == seq![c] + rest);
        lemma_count_shift(c, rest, q, 0);
        if out.len() >= 3 {
            assert(out.subrange(0, 3)[0] == c);
        }
        assert(!occurs_at(out, q, 0));
        assert(s.subrange(i, i + 3)[1] == s[i + 1]);
        assert(s.subrange(i, i + 3)[2] == s[i + 2]);
        assert(!occurs_at(s, q, i));
        if i + 4 <= s.len() {
            assert(s.subrange(i + 1, i + 4)[0] == s[i + 1]);
        }
        if i + 5 <= s.len() {
            assert(s.subrange(i + 2, i + 5)[0] == s[i + 2]);
        }
        assert(!occurs_at(s, q, i + 1));
        assert(!occurs_at(s, q, i + 2));
        assert(count_from(s, q, i + 2) == count_from(s, q, i + 3));
        assert(count_from(s, q, i + 1) == count_from(s, q, i + 2));
        assert(count_from(s, q, i) == count_from(s, q, i + 3));
        assert(count_from(out, q, 0) == count_from(out, q, 1));
    } else {
        lemma_replace_keeps_count(s, p, c, q, i + 1);
        let rest = replace_from(s, p, seq![c], i + 1);
        assert(out == seq![s[i]] + rest);
        lemma_count_shift(s[i], rest, q, 0);
        lemma_rest_prefix(s, p, c, i + 1);
        if occurs_at(out, q, 0) {
            let w = out.subrange(0, 3);
            assert(w[0] == s[i]);
            assert(w[1] == rest[0]);
            assert(w[2] == rest[1]);
            assert(s.subrange(i, i + 3) =~= q);
        }
        if occurs_at(s, q, i) {
            assert(s.subrange(i, i + 3)[1] == s[i + 1]);
            assert(s.subrange(i, i + 3)[2] == s[i + 2]);
            assert(out.subrange(0, 3) =~= q);
        }
        assert(count_from(out, q, 0) == count_from(out, q, 1) + if occurs_at(out, q, 0) { 1nat } else { 0nat });
    }
}

} // verus!
