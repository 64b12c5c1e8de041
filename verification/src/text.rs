//! Character-level text utilities shared by the parser and the rest of the
//! engine: whitespace classification, trimming, page-break stripping, dash
//! runs, and decimal formatting.

use vstd::prelude::*;

verus! {

/// The form-feed control character; common word processors emit it for page
/// breaks, and the parser strips it from every line.
pub open spec fn form_feed() -> char {
    '\u{000C}'
}

/// Whether `c` carries the Unicode `White_Space` property, mirroring what
/// `char::is_whitespace` reports.
pub open spec fn is_space_char(c: char) -> bool {
    let u = c as u32;
    ||| u == 0x20
    ||| (0x09 <= u && u <= 0x0D)
    ||| u == 0x85
    ||| u == 0xA0
    ||| u == 0x1680
    ||| (0x2000 <= u && u <= 0x200A)
    ||| u == 0x2028
    ||| u == 0x2029
    ||| u == 0x202F
    ||| u == 0x205F
    ||| u == 0x3000
}

pub fn is_space(c: char) -> (r: bool)
    ensures
        r == is_space_char(c),
{
    let u = c as u32;
    u == 0x20 || (0x09 <= u && u <= 0x0D) || u == 0x85 || u == 0xA0 || u == 0x1680
        || (0x2000 <= u && u <= 0x200A) || u == 0x2028 || u == 0x2029 || u == 0x202F
        || u == 0x205F || u == 0x3000
}

/// `s` with its leading whitespace removed.
pub open spec fn trim_front(s: Seq<char>) -> Seq<char>
    decreases s.len(),
{
    if s.len() > 0 && is_space_char(s[0]) {
        trim_front(s.drop_first())
    } else {
        s
    }
}

/// `s` with its trailing whitespace removed.
pub open spec fn trim_back(s: Seq<char>) -> Seq<char>
    decreases s.len(),
{
    if s.len() > 0 && is_space_char(s.last()) {
        trim_back(s.drop_last())
    } else {
        s
    }
}

/// `s` with whitespace removed from both ends.
pub open spec fn trim(s: Seq<char>) -> Seq<char> {
    trim_back(trim_front(s))
}

/// `s` with every form-feed character removed.
pub open spec fn strip_ff(s: Seq<char>) -> Seq<char>
    decreases s.len(),
{
    if s.len() == 0 {
        Seq::empty()
    } else if s[0] == form_feed() {
        strip_ff(s.drop_first())
    } else {
        seq![s[0]] + strip_ff(s.drop_first())
    }
}

/// A line as the parser evaluates it: trimmed, then cleared of page breaks.
pub open spec fn clean_line(s: Seq<char>) -> Seq<char> {
    strip_ff(trim(s))
}

/// The length of the run of `c` at the front of `s`.
pub open spec fn lead_run(s: Seq<char>, c: char) -> nat
    decreases s.len(),
{
    if s.len() > 0 && s[0] == c {
        1 + lead_run(s.drop_first(), c)
    } else {
        0
    }
}

/// Five dashes in a row starting at `j`.
pub open spec fn dash_run_at(s: Seq<char>, j: int) -> bool {
    forall|k: int| j <= k < j + 5 ==> s[k] == '-'
}

/// Whether `s` contains five or more consecutive dashes anywhere.
pub open spec fn has_dash_run(s: Seq<char>) -> bool {
    exists|j: int| 0 <= j && j + 5 <= s.len() && dash_run_at(s, j)
}

proof fn lemma_trim_front_skip(s: Seq<char>, a: int)
    requires
        0 <= a <= s.len(),
        forall|k: int| 0 <= k < a ==> is_space_char(s[k]),
        a < s.len() ==> !is_space_char(s[a]),
    ensures
        trim_front(s) == s.skip(a),
    decreases a,
{
    if a == 0 {
        assert(s.skip(0) =~= s);
    } else {
        lemma_trim_front_skip(s.drop_first(), a - 1);
        assert(s.drop_first().skip(a - 1) =~= s.skip(a));
    }
}

proof fn lemma_trim_back_take(s: Seq<char>, b: int)
    requires
        0 <= b <= s.len(),
        forall|k: int| b <= k < s.len() ==> is_space_char(s[k]),
        b > 0 ==> !is_space_char(s[b - 1]),
    ensures
        trim_back(s) == s.take(b),
    decreases s.len() - b,
{
    if b == s.len() {
        if s.len() > 0 && is_space_char(s.last()) {
            assert(!is_space_char(s[b - 1]));
            assert(false);
        }
        assert(s.take(b) =~= s);
    } else {
        lemma_trim_back_take(s.drop_last(), b);
        assert(s.drop_last().take(b) =~= s.take(b));
    }
}

/// Trimming both ends equals keeping exactly the characters between the
/// first and last non-whitespace positions.
proof fn lemma_trim_subrange(s: Seq<char>, a: int, b: int)
    requires
        0 <= a <= b <= s.len(),
        forall|k: int| 0 <= k < a ==> is_space_char(s[k]),
        forall|k: int| b <= k < s.len() ==> is_space_char(s[k]),
        a < s.len() ==> !is_space_char(s[a]),
        b > 0 && a < b ==> !is_space_char(s[b - 1]),
    ensures
        trim(s) == s.subrange(a, b),
    decreases 0int,
{
    lemma_trim_front_skip(s, a);
    let t = s.skip(a);
    lemma_trim_back_take(t, b - a);
    assert(t.take(b - a) =~= s.subrange(a, b));
}

/// Remove whitespace at both ends of `v` and every form feed in between:
/// the line as the parser's grammar sees it.
pub fn clean_line_exec(v: &Vec<char>) -> (r: Vec<char>)
    ensures
        r@ == clean_line(v@),
{
    let n = v.len();
    let mut a: usize = 0;
    while a < n && is_space(v[a])
        invariant
            a <= n,
            n == v@.len(),
            forall|k: int| 0 <= k < a ==> is_space_char(v@[k]),
        decreases n - a,
    {
        a += 1;
    }
    if a == n {
        proof {
            lemma_trim_front_skip(v@, a as int);
            assert(v@.skip(n as int) =~= Seq::<char>::empty());
        }
        return Vec::new();
    }
    let mut b: usize = n;
    while b > a && is_space(v[b - 1])
        invariant
            a <= b <= n,
            n == v@.len(),
            forall|k: int| b <= k < n ==> is_space_char(v@[k]),
        decreases b,
    {
        b -= 1;
    }
    // v[a] is not whitespace, so the backward scan stops strictly after it.
    assert(b > a);
    proof {
        lemma_trim_subrange(v@, a as int, b as int);
    }
    let ghost t = v@.subrange(a as int, b as int);
    let mut out: Vec<char> = Vec::new();
    let mut k: usize = a;
    while k < b
        invariant
            a <= k <= b <= n,
            n == v@.len(),
            t == v@.subrange(a as int, b as int),
            strip_ff(t) == out@ + strip_ff(v@.subrange(k as int, b as int)),
        decreases b - k,
    {
        let c = v[k];
        proof {
            let rest = v@.subrange(k as int, b as int);
            assert(rest[0] == v@[k as int]);
            assert(rest.drop_first() =~= v@.subrange(k as int + 1, b as int));
        }
        if c != '\u{000C}' {
            out.push(c);
        }
        k += 1;
    }
    proof {
        assert(v@.subrange(b as int, b as int) =~= Seq::<char>::empty());
        assert(out@ + Seq::<char>::empty() =~= out@);
    }
    out
}

/// Trim whitespace from both ends of `v` with its first `from` characters
/// dropped.
pub fn trim_skip_exec(v: &Vec<char>, from: usize) -> (r: Vec<char>)
    requires
        from <= v@.len(),
    ensures
        r@ == trim(v@.skip(from as int)),
{
    let ghost s = v@.skip(from as int);
    let n = v.len();
    let mut a: usize = from;
    while a < n && is_space(v[a])
        invariant
            from <= a <= n,
            n == v@.len(),
            s == v@.skip(from as int),
            forall|k: int| from <= k < a ==> is_space_char(v@[k]),
        decreases n - a,
    {
        a += 1;
    }
    if a == n {
        proof {
            lemma_trim_front_skip(s, a - from);
            assert(s.skip(a - from) =~= Seq::<char>::empty());
        }
        return Vec::new();
    }
    let mut b: usize = n;
    while b > a && is_space(v[b - 1])
        invariant
            a <= b <= n,
            n == v@.len(),
            forall|k: int| b <= k < n ==> is_space_char(v@[k]),
        decreases b,
    {
        b -= 1;
    }
    assert(b > a);
    proof {
        lemma_trim_subrange(s, a - from, b - from);
        assert(s.subrange(a - from, b - from) =~= v@.subrange(a as int, b as int));
    }
    let mut out: Vec<char> = Vec::new();
    let mut k: usize = a;
    while k < b
        invariant
            a <= k <= b <= n,
            n == v@.len(),
            out@ == v@.subrange(a as int, k as int),
        decreases b - k,
    {
        out.push(v[k]);
        proof {
            assert(v@.subrange(a as int, k as int).push(v@[k as int]) =~= v@.subrange(
                a as int,
                k as int + 1,
            ));
        }
        k += 1;
    }
    out
}

/// Count the run of `c` at the front of `v`.
pub fn lead_run_exec(v: &Vec<char>, c: char) -> (r: usize)
    ensures
        r == lead_run(v@, c),
        r <= v@.len(),
{
    let n = v.len();
    let mut i: usize = 0;
    proof {
        assert(v@.skip(0) =~= v@);
    }
    while i < n && v[i] == c
        invariant
            i <= n,
            n == v@.len(),
            lead_run(v@, c) == i + lead_run(v@.skip(i as int), c),
        decreases n - i,
    {
        proof {
            let rest = v@.skip(i as int);
            assert(rest[0] == v@[i as int]);
            assert(rest.drop_first() =~= v@.skip(i as int + 1));
        }
        i += 1;
    }
    proof {
        let rest = v@.skip(i as int);
        if i < n {
            assert(rest[0] == v@[i as int]);
        }
        assert(lead_run(rest, c) == 0);
    }
    i
}

/// Whether `v` holds five or more consecutive dashes.
pub fn has_dash_run_exec(v: &Vec<char>) -> (r: bool)
    ensures
        r == has_dash_run(v@),
{
    let n = v.len();
    if n < 5 {
        return false;
    }
    let mut i: usize = 0;
    while i <= n - 5
        invariant
            5 <= n == v@.len(),
            i <= n - 4,
            forall|j: int| 0 <= j < i ==> !dash_run_at(v@, j),
        decreases n - i,
    {
        if v[i] == '-' && v[i + 1] == '-' && v[i + 2] == '-' && v[i + 3] == '-' && v[i + 4]
            == '-' {
            assert(dash_run_at(v@, i as int)) by {
                assert(forall|k: int| i <= k < i + 5 ==> v@[k] == '-');
            }
            return true;
        }
        assert(!dash_run_at(v@, i as int));
        i += 1;
    }
    false
}

/// The index of the first occurrence of `c` in `s`, or the length of `s`
/// if it does not occur.
pub open spec fn first_at(s: Seq<char>, c: char) -> int
    decreases s.len(),
{
    if s.len() == 0 {
        0
    } else if s[0] == c {
        0
    } else {
        1 + first_at(s.drop_first(), c)
    }
}

/// `first_at` always lands inside `[0, len]`.
pub proof fn lemma_first_at_bounds(s: Seq<char>, c: char)
    ensures
        0 <= first_at(s, c) <= s.len(),
    decreases s.len(),
{
    if s.len() > 0 && s[0] != c {
        lemma_first_at_bounds(s.drop_first(), c);
    }
}

proof fn lemma_first_at_is(s: Seq<char>, c: char, m: int)
    requires
        0 <= m <= s.len(),
        forall|k: int| 0 <= k < m ==> s[k] != c,
        m < s.len() ==> s[m] == c,
    ensures
        first_at(s, c) == m,
    decreases m,
{
    if m > 0 {
        lemma_first_at_is(s.drop_first(), c, m - 1);
    }
}

/// Find the first occurrence of `c` in `v` at or after `from`.
pub fn find_char(v: &Vec<char>, c: char, from: usize) -> (r: usize)
    requires
        from <= v@.len(),
    ensures
        from <= r <= v@.len(),
        first_at(v@.skip(from as int), c) == r - from,
        r < v@.len() ==> v@[r as int] == c,
        forall|k: int| from <= k < r ==> v@[k] != c,
{
    let n = v.len();
    let mut j: usize = from;
    while j < n && v[j] != c
        invariant
            from <= j <= n,
            n == v@.len(),
            forall|k: int| from <= k < j ==> v@[k] != c,
        decreases n - j,
    {
        j += 1;
    }
    proof {
        let s = v@.skip(from as int);
        assert forall|k: int| 0 <= k < j - from implies s[k] != c by {
            assert(s[k] == v@[k + from]);
        }
        if j < n {
            assert(s[j - from] == v@[j as int]);
        }
        lemma_first_at_is(s, c, j - from);
    }
    j
}

/// Whether two character vectors hold the same characters.
pub fn chars_eq(a: &Vec<char>, b: &Vec<char>) -> (r: bool)
    ensures
        r == (a@ == b@),
{
    if a.len() != b.len() {
        return false;
    }
    let n = a.len();
    let mut i: usize = 0;
    while i < n
        invariant
            i <= n,
            n == a@.len() == b@.len(),
            forall|k: int| 0 <= k < i ==> a@[k] == b@[k],
        decreases n - i,
    {
        if a[i] != b[i] {
            return false;
        }
        i += 1;
    }
    proof {
        assert(a@ =~= b@);
    }
    true
}

/// Copy the characters of `v` between `from` and `to`.
pub fn copy_range(v: &Vec<char>, from: usize, to: usize) -> (r: Vec<char>)
    requires
        from <= to <= v@.len(),
    ensures
        r@ == v@.subrange(from as int, to as int),
{
    let mut out: Vec<char> = Vec::new();
    let mut k: usize = from;
    proof {
        assert(out@ =~= v@.subrange(from as int, from as int));
    }
    while k < to
        invariant
            from <= k <= to <= v@.len(),
            out@ == v@.subrange(from as int, k as int),
        decreases to - k,
    {
        out.push(v[k]);
        proof {
            assert(v@.subrange(from as int, k as int).push(v@[k as int]) =~= v@.subrange(
                from as int,
                k as int + 1,
            ));
        }
        k += 1;
    }
    out
}

/// The decimal digit character for `d`.
pub open spec fn digit_char(d: nat) -> char {
    if d == 0 {
        '0'
    } else if d == 1 {
        '1'
    } else if d == 2 {
        '2'
    } else if d == 3 {
        '3'
    } else if d == 4 {
        '4'
    } else if d == 5 {
        '5'
    } else if d == 6 {
        '6'
    } else if d == 7 {
        '7'
    } else if d == 8 {
        '8'
    } else {
        '9'
    }
}

/// The decimal digit string of `n`, most significant digit first.
pub open spec fn spec_udigits(n: nat) -> Seq<char>
    decreases n,
{
    if n < 10 {
        seq![digit_char(n)]
    } else {
        spec_udigits(n / 10).push(digit_char(n % 10))
    }
}

/// The decimal string of `n`, with a leading minus sign when negative.
pub open spec fn spec_decimal(n: int) -> Seq<char> {
    if n >= 0 {
        spec_udigits(n as nat)
    } else {
        seq!['-'] + spec_udigits((-n) as nat)
    }
}

fn digit_of(d: u32) -> (c: char)
    requires
        d < 10,
    ensures
        c == digit_char(d as nat),
{
    match d {
        0 => '0',
        1 => '1',
        2 => '2',
        3 => '3',
        4 => '4',
        5 => '5',
        6 => '6',
        7 => '7',
        8 => '8',
        _ => '9',
    }
}

fn u32_digits(n: u32) -> (r: Vec<char>)
    ensures
        r@ == spec_udigits(n as nat),
    decreases n,
{
    if n < 10 {
        let mut v: Vec<char> = Vec::new();
        v.push(digit_of(n));
        v
    } else {
        let mut v = u32_digits(n / 10);
        v.push(digit_of(n % 10));
        v
    }
}

/// Format `n` in decimal.
pub fn i32_to_string(n: i32) -> (r: String)
    ensures
        r@ == spec_decimal(n as int),
{
    if n >= 0 {
        chars_to_string(&u32_digits(n as u32))
    } else {
        let wide: i64 = n as i64;
        let mag: u32 = (-wide) as u32;
        let mut v: Vec<char> = Vec::new();
        v.push('-');
        let mut digits = u32_digits(mag);
        let ghost dg = digits@;
        let mut k: usize = 0;
        while k < digits.len()
            invariant
                k <= dg.len(),
                digits@ == dg,
                v@ == seq!['-'] + dg.take(k as int),
            decreases dg.len() - k,
        {
            v.push(digits[k]);
            proof {
                assert(dg.take(k as int).push(dg[k as int]) =~= dg.take(k as int + 1));
            }
            k += 1;
        }
        proof {
            assert(dg.take(dg.len() as int) =~= dg);
        }
        chars_to_string(&v)
    }
}

/// Relies on `String`'s `FromIterator<char>` implementation: collecting
/// characters yields the string holding exactly those characters in order.
#[verifier::external_body]
pub fn chars_to_string(v: &Vec<char>) -> (s: String)
    ensures
        s@ == v@,
{
    v.iter().collect()
}

/// Relies on `str::chars`: the iterator yields exactly the characters of
/// the string, in order.
#[verifier::external_body]
pub fn chars_of(s: &str) -> (r: Vec<char>)
    ensures
        r@ == s@,
{
    s.chars().collect()
}

} // verus!
