//! Character-level text handling shared by the parsers and formatters of the
//! library: whitespace trimming, prefix tests, splitting on a separator,
//! decimal formatting and decimal parsing, all specified over `Seq<char>`.
use vstd::prelude::*;

verus! {

// ─── Specifications ─────────────────────────────────────────────────────────

/// Unicode `White_Space` characters (the set that `str::trim` removes).
pub open spec fn is_ws(c: char) -> bool {
    ||| (c as u32) >= 0x9 && (c as u32) <= 0xd
    ||| c == ' '
    ||| (c as u32) == 0x85
    ||| (c as u32) == 0xa0
    ||| (c as u32) == 0x1680
    ||| (c as u32) >= 0x2000 && (c as u32) <= 0x200a
    ||| (c as u32) == 0x2028
    ||| (c as u32) == 0x2029
    ||| (c as u32) == 0x202f
    ||| (c as u32) == 0x205f
    ||| (c as u32) == 0x3000
}

/// `s` with leading whitespace removed.
pub open spec fn trim_start_seq(s: Seq<char>) -> Seq<char>
    decreases s.len(),
{
    if s.len() > 0 && is_ws(s[0]) {
        trim_start_seq(s.drop_first())
    } else {
        s
    }
}

/// `s` with trailing whitespace removed.
pub open spec fn trim_end_seq(s: Seq<char>) -> Seq<char>
    decreases s.len(),
{
    if s.len() > 0 && is_ws(s.last()) {
        trim_end_seq(s.drop_last())
    } else {
        s
    }
}

/// `s` with leading and trailing whitespace removed.
pub open spec fn trim_seq(s: Seq<char>) -> Seq<char> {
    trim_end_seq(trim_start_seq(s))
}

/// Whether `s` begins with `p`.
pub open spec fn starts_with_seq(s: Seq<char>, p: Seq<char>) -> bool {
    p.len() <= s.len() && s.take(p.len() as int) == p
}

/// Index of the first occurrence of `c` in `s`.
pub open spec fn find_char(s: Seq<char>, c: char) -> Option<int>
    decreases s.len(),
{
    if s.len() == 0 {
        None
    } else if s[0] == c {
        Some(0)
    } else {
        match find_char(s.drop_first(), c) {
            Some(i) => Some(i + 1),
            None => None,
        }
    }
}

/// The pieces of `s` between occurrences of `c` (what `str::split` yields).
pub open spec fn split_seq(s: Seq<char>, c: char) -> Seq<Seq<char>>
    decreases s.len(),
{
    match find_char(s, c) {
        Some(i) => {
            if 0 <= i < s.len() {
                seq![s.take(i)] + split_seq(s.skip(i + 1), c)
            } else {
                seq![s]
            }
        },
        None => seq![s],
    }
}

/// At most two pieces: before and after the first `c` (what `splitn(2, c)` yields).
pub open spec fn split_once_seq(s: Seq<char>, c: char) -> Seq<Seq<char>> {
    match find_char(s, c) {
        Some(i) => seq![s.take(i), s.skip(i + 1)],
        None => seq![s],
    }
}

/// Whether `c` is an ASCII decimal digit.
pub open spec fn is_digit(c: char) -> bool {
    '0' <= c && c <= '9'
}

/// The value of an ASCII digit.
pub open spec fn digit_val(c: char) -> nat {
    (c as u32 - '0' as u32) as nat
}

/// The character of a digit value below ten.
pub open spec fn digit_char(d: nat) -> char {
    (d + '0' as u32) as char
}

/// The number written by a sequence of decimal digits.
pub open spec fn digits_value(s: Seq<char>) -> nat
    decreases s.len(),
{
    if s.len() == 0 {
        0
    } else {
        digits_value(s.drop_last()) * 10 + digit_val(s.last())
    }
}

/// Whether every character of `s` is a decimal digit.
pub open spec fn all_digits(s: Seq<char>) -> bool {
    forall|i: int| 0 <= i < s.len() ==> is_digit(#[trigger] s[i])
}

/// The number that an unsigned integer's `from_str` reads from `s`, before the
/// bound of the type is applied: an optional `+`, then at least one digit.
pub open spec fn parse_unsigned(s: Seq<char>) -> Option<nat> {
    let body = if s.len() > 0 && s[0] == '+' { s.drop_first() } else { s };
    if body.len() > 0 && all_digits(body) {
        Some(digits_value(body))
    } else {
        None
    }
}

/// The shortest decimal representation of `n`.
pub open spec fn decimal(n: nat) -> Seq<char>
    decreases n,
{
    if n < 10 {
        seq![digit_char(n)]
    } else {
        decimal(n / 10).push(digit_char(n % 10))
    }
}

// ─── Conversions between strings and characters ─────────────────────────────

/// The characters of a string slice, in order.
pub fn chars_of(s: &str) -> (out: Vec<char>)
    ensures
        out@ == s@,
{
    let mut out: Vec<char> = Vec::new();
    for c in it: s.chars()
        invariant
            out@ == it.seq().take(it.index() as int),
    {
        out.push(c);
    }
    out
}

/// Builds a `String` from characters (`String::from_iter`).
#[verifier::external_body]
pub(crate) fn string_from_chars(v: &Vec<char>) -> (s: String)
    ensures
        s@ == v@,
{
    String::from_iter(v.iter())
}

/// A `String` holding a copy of a string slice.
pub fn owned(s: &str) -> (out: String)
    ensures
        out@ == s@,
{
    s.to_owned()
}

/// A `String` with the given characters, built from a sub-range of a vector.
pub fn string_of_range(v: &Vec<char>, lo: usize, hi: usize) -> (s: String)
    requires
        lo <= hi <= v.len(),
    ensures
        s@ == v@.subrange(lo as int, hi as int),
{
    let piece = sub_vec(v, lo, hi);
    string_from_chars(&piece)
}

/// A copy of `v[lo..hi]`.
pub fn sub_vec(v: &Vec<char>, lo: usize, hi: usize) -> (out: Vec<char>)
    requires
        lo <= hi <= v.len(),
    ensures
        out@ == v@.subrange(lo as int, hi as int),
{
    let mut out: Vec<char> = Vec::new();
    let mut i = lo;
    while i < hi
        invariant
            lo <= i <= hi <= v.len(),
            out@ == v@.subrange(lo as int, i as int),
        decreases hi - i,
    {
        out.push(v[i]);
        i = i + 1;
    }
    out
}

/// `a` followed by `b`.
pub fn concat_chars(a: &Vec<char>, b: &Vec<char>) -> (out: Vec<char>)
    ensures
        out@ == a@ + b@,
{
    let mut out = a.clone();
    let mut i: usize = 0;
    while i < b.len()
        invariant
            i <= b.len(),
            out@ == a@ + b@.take(i as int),
        decreases b.len() - i,
    {
        out.push(b[i]);
        i = i + 1;
        assert(b@.take(i as int) == b@.take(i - 1).push(b@[i - 1]));
    }
    assert(b@.take(b.len() as int) == b@);
    out
}

/// Whether two character vectors hold the same characters.
pub fn chars_eq(a: &Vec<char>, b: &Vec<char>) -> (r: bool)
    ensures
        r == (a@ == b@),
{
    if a.len() != b.len() {
        return false;
    }
    let mut i: usize = 0;
    while i < a.len()
        invariant
            a.len() == b.len(),
            i <= a.len(),
            forall|j: int| 0 <= j < i ==> a@[j] == b@[j],
        decreases a.len() - i,
    {
        if a[i] != b[i] {
            return false;
        }
        i = i + 1;
    }
    assert(a@ =~= b@);
    true
}

/// Whether the characters of `a` are those of the string slice `lit`.
pub fn chars_eq_str(a: &Vec<char>, lit: &str) -> (r: bool)
    ensures
        r == (a@ == lit@),
{
    let l = chars_of(lit);
    chars_eq(a, &l)
}

/// Whether `p` occurs in `s` as a contiguous piece.
pub open spec fn contains_seq(s: Seq<char>, p: Seq<char>) -> bool {
    exists|i: int| 0 <= i && i + p.len() <= s.len() && #[trigger] s.subrange(i, i + p.len()) == p
}

/// Whether the characters of `p` occur in `s` as a contiguous piece.
pub fn contains_str(s: &Vec<char>, p: &str) -> (b: bool)
    ensures
        b == contains_seq(s@, p@),
{
    let pc = chars_of(p);
    if pc.len() > s.len() {
        return false;
    }
    let mut i: usize = 0;
    while i <= s.len() - pc.len()
        invariant
            pc@ == p@,
            pc.len() <= s.len(),
            i <= s.len() - pc.len() + 1,
            forall|j: int| 0 <= j < i ==> #[trigger] s@.subrange(j, j + pc@.len()) != pc@,
        decreases s.len() - i,
    {
        let mut k: usize = 0;
        let mut same = true;
        while k < pc.len()
            invariant
                pc.len() <= s.len(),
                i + pc.len() <= s.len(),
                k <= pc.len(),
                same == (forall|m: int| 0 <= m < k ==> s@[i + m] == pc@[m]),
            decreases pc.len() - k,
        {
            if s[i + k] != pc[k] {
                same = false;
            }
            k = k + 1;
        }
        if same {
            assert(s@.subrange(i as int, i + pc@.len()) =~= pc@);
            return true;
        }
        assert(s@.subrange(i as int, i + pc@.len()) != pc@) by {
            let m = choose|m: int| 0 <= m < pc.len() && s@[i + m] != pc@[m];
            assert(s@.subrange(i as int, i + pc@.len())[m] == s@[i + m]);
        }
        i = i + 1;
    }
    false
}

// ─── Whitespace ─────────────────────────────────────────────────────────────

/// Whether `c` is Unicode whitespace.
pub fn char_is_ws(c: char) -> (r: bool)
    ensures
        r == is_ws(c),
{
    let u = c as u32;
    (u >= 0x9 && u <= 0xd) || u == 0x20 || u == 0x85 || u == 0xa0 || u == 0x1680 || (u >= 0x2000
        && u <= 0x200a) || u == 0x2028 || u == 0x2029 || u == 0x202f || u == 0x205f || u == 0x3000
}

/// Lemma: removing leading whitespace drops a run of whitespace characters
/// and stops at a character that is not whitespace.
pub proof fn lemma_trim_start_shape(s: Seq<char>) -> (i: int)
    ensures
        0 <= i <= s.len(),
        trim_start_seq(s) == s.skip(i),
        forall|k: int| 0 <= k < i ==> is_ws(#[trigger] s[k]),
        i < s.len() ==> !is_ws(s[i]),
    decreases s.len(),
{
    if s.len() > 0 && is_ws(s[0]) {
        let j = lemma_trim_start_shape(s.drop_first());
        assert(s.drop_first().skip(j) =~= s.skip(j + 1));
        assert forall|k: int| 0 <= k < j + 1 implies is_ws(#[trigger] s[k]) by {
            if k > 0 {
                assert(s[k] == s.drop_first()[k - 1]);
            }
        }
        if j + 1 < s.len() {
            assert(s[j + 1] == s.drop_first()[j]);
        }
        j + 1
    } else {
        assert(s.skip(0) =~= s);
        0
    }
}

/// Lemma: removing trailing whitespace drops a run of whitespace characters
/// and stops after a character that is not whitespace.
pub proof fn lemma_trim_end_shape(s: Seq<char>) -> (j: int)
    ensures
        0 <= j <= s.len(),
        trim_end_seq(s) == s.take(j),
        forall|k: int| j <= k < s.len() ==> is_ws(#[trigger] s[k]),
        j > 0 ==> !is_ws(s[j - 1]),
    decreases s.len(),
{
    if s.len() > 0 && is_ws(s.last()) {
        let j = lemma_trim_end_shape(s.drop_last());
        assert(s.drop_last().take(j) =~= s.take(j));
        assert forall|k: int| j <= k < s.len() implies is_ws(#[trigger] s[k]) by {
            if k < s.len() - 1 {
                assert(s[k] == s.drop_last()[k]);
            }
        }
        if j > 0 {
            assert(s[j - 1] == s.drop_last()[j - 1]);
        }
        j
    } else {
        assert(s.take(s.len() as int) =~= s);
        s.len() as int
    }
}

/// Law: trimming keeps the part of `s` between a leading and a trailing run
/// of whitespace, and what it keeps neither starts nor ends with
/// whitespace.
pub proof fn law_trim_shape(s: Seq<char>)
    ensures
        exists|i: int, j: int|
            0 <= i <= j <= s.len() && trim_seq(s) == s.subrange(i, j) && (forall|k: int|
                0 <= k < i ==> is_ws(#[trigger] s[k])) && (forall|k: int| j <= k < s.len() ==> is_ws(#[trigger] s[k])),
        trim_seq(s).len() > 0 ==> !is_ws(trim_seq(s)[0]) && !is_ws(trim_seq(s).last()),
{
    let i = lemma_trim_start_shape(s);
    let t = s.skip(i);
    let j = lemma_trim_end_shape(t);
    assert(t.take(j) =~= s.subrange(i, i + j));
    assert forall|k: int| i + j <= k < s.len() implies is_ws(#[trigger] s[k]) by {
        assert(s[k] == t[k - i]);
    }
    assert(0 <= i <= i + j <= s.len() && trim_seq(s) == s.subrange(i, i + j));
    if j > 0 {
        assert(trim_seq(s)[0] == s[i]);
        assert(trim_seq(s).last() == t[j - 1]);
    }
}

proof fn lemma_trim_start_skip(s: Seq<char>, i: int)
    requires
        0 <= i < s.len(),
        is_ws(s[i]),
    ensures
        trim_start_seq(s.skip(i)) == trim_start_seq(s.skip(i + 1)),
{
    assert(s.skip(i).drop_first() =~= s.skip(i + 1));
}

proof fn lemma_trim_end_take(s: Seq<char>, j: int)
    requires
        0 < j <= s.len(),
        is_ws(s[j - 1]),
    ensures
        trim_end_seq(s.take(j)) == trim_end_seq(s.take(j - 1)),
{
    assert(s.take(j).drop_last() =~= s.take(j - 1));
}

/// `s` with leading and trailing whitespace removed (`str::trim`).
pub fn trim_chars(s: &Vec<char>) -> (out: Vec<char>)
    ensures
        out@ == trim_seq(s@),
{
    let mut i: usize = 0;
    assert(s@.skip(0) =~= s@);
    while i < s.len() && char_is_ws(s[i])
        invariant
            i <= s.len(),
            trim_start_seq(s@) == trim_start_seq(s@.skip(i as int)),
        decreases s.len() - i,
    {
        proof {
            lemma_trim_start_skip(s@, i as int);
        }
        i = i + 1;
    }
    let ghost rest = s@.skip(i as int);
    assert(trim_start_seq(rest) == rest);
    let mut j: usize = s.len();
    assert(rest.take(j - i) =~= rest);
    while j > i && char_is_ws(s[j - 1])
        invariant
            i <= j <= s.len(),
            rest == s@.skip(i as int),
            trim_end_seq(rest) == trim_end_seq(rest.take(j - i)),
        decreases j,
    {
        proof {
            lemma_trim_end_take(rest, (j - i) as int);
        }
        j = j - 1;
    }
    assert(rest.take(j - i) =~= s@.subrange(i as int, j as int));
    sub_vec(s, i, j)
}

/// `s` with leading whitespace removed (`str::trim_start`).
pub fn trim_start_chars(s: &Vec<char>) -> (out: Vec<char>)
    ensures
        out@ == trim_start_seq(s@),
{
    let mut i: usize = 0;
    assert(s@.skip(0) =~= s@);
    while i < s.len() && char_is_ws(s[i])
        invariant
            i <= s.len(),
            trim_start_seq(s@) == trim_start_seq(s@.skip(i as int)),
        decreases s.len() - i,
    {
        proof {
            lemma_trim_start_skip(s@, i as int);
        }
        i = i + 1;
    }
    let out = sub_vec(s, i, s.len());
    assert(out@ =~= s@.skip(i as int));
    out
}

/// The first position at which `p` occurs in `s`.
pub open spec fn find_seq(s: Seq<char>, p: Seq<char>) -> Option<int> {
    if exists|i: int|
        0 <= i && i + p.len() <= s.len() && #[trigger] s.subrange(i, i + p.len()) == p && forall|j: int|
            0 <= j < i && j + p.len() <= s.len() ==> #[trigger] s.subrange(j, j + p.len()) != p {
        Some(choose|i: int|
            0 <= i && i + p.len() <= s.len() && #[trigger] s.subrange(i, i + p.len()) == p && forall|j: int|
                0 <= j < i && j + p.len() <= s.len() ==> #[trigger] s.subrange(j, j + p.len()) != p)
    } else {
        None
    }
}

/// Finds the first occurrence of `p` in `s` (`str::find`, in characters).
pub fn find_chars(s: &Vec<char>, p: &Vec<char>) -> (r: Option<usize>)
    ensures
        match find_seq(s@, p@) {
            Some(i) => r == Some(i as usize),
            None => r is None,
        },
        r matches Some(i) ==> i + p@.len() <= s@.len() && s@.subrange(i as int, i + p@.len()) == p@,
{
    if p.len() > s.len() {
        return None;
    }
    let mut i: usize = 0;
    while i <= s.len() - p.len()
        invariant
            p.len() <= s.len(),
            i <= s.len() - p.len() + 1,
            forall|j: int| 0 <= j < i ==> #[trigger] s@.subrange(j, j + p@.len()) != p@,
        decreases s.len() - i,
    {
        let mut k: usize = 0;
        let mut same = true;
        while k < p.len()
            invariant
                p.len() <= s.len(),
                i + p.len() <= s.len(),
                k <= p.len(),
                same == (forall|m: int| 0 <= m < k ==> s@[i + m] == p@[m]),
            decreases p.len() - k,
        {
            if s[i + k] != p[k] {
                same = false;
            }
            k = k + 1;
        }
        if same {
            assert(s@.subrange(i as int, i + p@.len()) =~= p@);
            proof {
                let c = choose|c: int|
                    0 <= c && c + p@.len() <= s@.len() && #[trigger] s@.subrange(c, c + p@.len()) == p@ && forall|j: int|
                        0 <= j < c && j + p@.len() <= s@.len() ==> #[trigger] s@.subrange(j, j + p@.len()) != p@;
                if c > i {
                    assert(s@.subrange(i as int, i + p@.len()) == p@);
                }
            }
            return Some(i);
        }
        assert(s@.subrange(i as int, i + p@.len()) != p@) by {
            let m = choose|m: int| 0 <= m < p.len() && s@[i + m] != p@[m];
            assert(s@.subrange(i as int, i + p@.len())[m] == s@[i + m]);
        }
        i = i + 1;
    }
    None
}

/// A string slice with leading and trailing whitespace removed, as characters.
pub fn trim_str(s: &str) -> (out: Vec<char>)
    ensures
        out@ == trim_seq(s@),
{
    let c = chars_of(s);
    trim_chars(&c)
}

// ─── Prefixes and splitting ─────────────────────────────────────────────────

/// Whether `s` begins with `p`.
pub fn starts_with_chars(s: &Vec<char>, p: &Vec<char>) -> (r: bool)
    ensures
        r == starts_with_seq(s@, p@),
{
    if p.len() > s.len() {
        return false;
    }
    let mut i: usize = 0;
    while i < p.len()
        invariant
            p.len() <= s.len(),
            i <= p.len(),
            forall|j: int| 0 <= j < i ==> s@[j] == p@[j],
        decreases p.len() - i,
    {
        if s[i] != p[i] {
            assert(s@.take(p.len() as int)[i as int] != p@[i as int]);
            return false;
        }
        i = i + 1;
    }
    assert(s@.take(p.len() as int) =~= p@);
    true
}

/// Whether the string slice `s` begins with the string slice `p`.
pub fn str_starts_with(s: &str, p: &str) -> (r: bool)
    ensures
        r == starts_with_seq(s@, p@),
{
    let sc = chars_of(s);
    let pc = chars_of(p);
    starts_with_chars(&sc, &pc)
}

proof fn lemma_find_char_step(s: Seq<char>, c: char, i: int)
    requires
        0 <= i < s.len(),
        forall|j: int| 0 <= j < i ==> s[j] != c,
    ensures
        s[i] == c ==> find_char(s, c) == Some(i),
        s[i] != c ==> find_char(s, c) == (match find_char(s.skip(i + 1), c) {
            Some(k) => Some(k + i + 1),
            None => None::<int>,
        }),
    decreases i,
{
    if i > 0 {
        lemma_find_char_step(s.drop_first(), c, i - 1);
        assert(s.drop_first().skip(i) =~= s.skip(i + 1));
    } else {
        assert(s.drop_first() =~= s.skip(1));
    }
}

proof fn lemma_find_char_none(s: Seq<char>, c: char)
    requires
        forall|j: int| 0 <= j < s.len() ==> s[j] != c,
    ensures
        find_char(s, c) is None,
    decreases s.len(),
{
    if s.len() > 0 {
        lemma_find_char_none(s.drop_first(), c);
    }
}

/// Index of the first occurrence of `c` in `s`, if any.
pub fn find_char_in(s: &Vec<char>, c: char) -> (r: Option<usize>)
    ensures
        match r {
            Some(i) => find_char(s@, c) == Some(i as int) && i < s.len(),
            None => find_char(s@, c) is None,
        },
{
    let mut i: usize = 0;
    while i < s.len()
        invariant
            i <= s.len(),
            forall|j: int| 0 <= j < i ==> s@[j] != c,
        decreases s.len() - i,
    {
        if s[i] == c {
            proof {
                lemma_find_char_step(s@, c, i as int);
            }
            return Some(i);
        }
        i = i + 1;
    }
    proof {
        lemma_find_char_none(s@, c);
    }
    None
}

/// Lemma: where `find_char` finds `c`, it points at `c` inside the sequence,
/// and no earlier character is `c`.
pub proof fn lemma_find_char_props(s: Seq<char>, c: char)
    ensures
        match find_char(s, c) {
            Some(i) => 0 <= i < s.len() && s[i] == c && forall|j: int| 0 <= j < i ==> s[j] != c,
            None => forall|j: int| 0 <= j < s.len() ==> s[j] != c,
        },
    decreases s.len(),
{
    if s.len() > 0 {
        lemma_find_char_props(s.drop_first(), c);
        if s[0] != c {
            match find_char(s.drop_first(), c) {
                Some(i) => {
                    assert forall|j: int| 0 <= j < i + 1 implies s[j] != c by {
                        if j > 0 {
                            assert(s[j] == s.drop_first()[j - 1]);
                        }
                    }
                },
                None => {
                    assert forall|j: int| 0 <= j < s.len() implies s[j] != c by {
                        if j > 0 {
                            assert(s[j] == s.drop_first()[j - 1]);
                        }
                    }
                },
            }
        }
    }
}

/// The two pieces of `s` around the first `c`, or `s` alone (`splitn(2, c)`).
pub fn split_once(s: &Vec<char>, c: char) -> (out: Vec<Vec<char>>)
    ensures
        out@.len() == split_once_seq(s@, c).len(),
        forall|k: int| 0 <= k < out@.len() ==> #[trigger] out@[k]@ == split_once_seq(s@, c)[k],
{
    match find_char_in(s, c) {
        Some(i) => {
            let a = sub_vec(s, 0, i);
            let b = sub_vec(s, i + 1, s.len());
            assert(a@ =~= s@.take(i as int));
            assert(b@ =~= s@.skip(i + 1));
            let mut out: Vec<Vec<char>> = Vec::new();
            out.push(a);
            out.push(b);
            out
        },
        None => {
            let mut out: Vec<Vec<char>> = Vec::new();
            out.push(s.clone());
            out
        },
    }
}

/// All pieces of `s` between occurrences of `c` (`str::split`).
pub fn split_all(s: &Vec<char>, c: char) -> (out: Vec<Vec<char>>)
    ensures
        out@.len() == split_seq(s@, c).len(),
        forall|k: int| 0 <= k < out@.len() ==> #[trigger] out@[k]@ == split_seq(s@, c)[k],
{
    let mut out: Vec<Vec<char>> = Vec::new();
    let mut rest = s.clone();
    loop
        invariant_except_break
            split_seq(s@, c) =~= out@.map_values(|v: Vec<char>| v@) + split_seq(rest@, c),
        ensures
            split_seq(s@, c) =~= out@.map_values(|v: Vec<char>| v@),
        decreases rest@.len(),
    {
        match find_char_in(&rest, c) {
            Some(i) => {
                assert(split_seq(rest@, c) == seq![rest@.take(i as int)] + split_seq(
                    rest@.skip(i + 1),
                    c,
                ));
                let a = sub_vec(&rest, 0, i);
                let b = sub_vec(&rest, i + 1, rest.len());
                assert(a@ =~= rest@.take(i as int));
                assert(b@ =~= rest@.skip(i + 1));
                let ghost old_out = out@;
                out.push(a);
                assert(out@.map_values(|v: Vec<char>| v@) =~= old_out.map_values(
                    |v: Vec<char>| v@,
                ).push(a@));
                rest = b;
            },
            None => {
                assert(split_seq(rest@, c) == seq![rest@]);
                let ghost old_out = out@;
                out.push(rest.clone());
                assert(out@.map_values(|v: Vec<char>| v@) =~= old_out.map_values(
                    |v: Vec<char>| v@,
                ).push(rest@));
                break ;
            },
        }
    }
    assert forall|k: int| 0 <= k < out@.len() implies #[trigger] out@[k]@ == split_seq(s@, c)[k] by {
        assert(out@.map_values(|v: Vec<char>| v@)[k] == out@[k]@);
    }
    out
}

// ─── Decimal numbers ────────────────────────────────────────────────────────

/// The decimal digits of `n`, most significant first.
pub fn decimal_chars(n: u64) -> (out: Vec<char>)
    ensures
        out@ == decimal(n as nat),
{
    let mut rev: Vec<char> = Vec::new();
    let mut m = n;
    // digits are produced least significant first, then reversed
    let ghost mut parts: Seq<nat> = seq![];
    loop
        invariant_except_break
            m <= n,
            decimal(n as nat) == decimal(m as nat) + rev@.reverse(),
        ensures
            decimal(n as nat) == rev@.reverse(),
        decreases m,
    {
        let d = m % 10;
        let ch = char_of_digit(d);
        if m < 10 {
            assert(decimal(m as nat) == seq![digit_char(m as nat)]);
            let ghost old_rev = rev@;
            rev.push(ch);
            assert(rev@.reverse() =~= seq![ch] + old_rev.reverse());
            break ;
        }
        let ghost old_rev = rev@;
        rev.push(ch);
        assert(rev@.reverse() =~= seq![ch] + old_rev.reverse());
        assert(decimal(m as nat) == decimal((m / 10) as nat).push(digit_char((m % 10) as nat)));
        assert(decimal((m / 10) as nat).push(ch) + old_rev.reverse() =~= decimal(
            (m / 10) as nat,
        ) + rev@.reverse());
        m = m / 10;
    }
    let mut out: Vec<char> = Vec::new();
    let mut k = rev.len();
    while k > 0
        invariant
            k <= rev.len(),
            out@ == rev@.reverse().take((rev.len() - k) as int),
        decreases k,
    {
        out.push(rev[k - 1]);
        k = k - 1;
        assert(rev@.reverse().take((rev.len() - k) as int) =~= rev@.reverse().take(
            (rev.len() - k - 1) as int,
        ).push(rev@[k as int]));
    }
    assert(out@ =~= rev@.reverse());
    assert(decimal(n as nat) =~= rev@.reverse());
    out
}

fn char_of_digit(d: u64) -> (c: char)
    requires
        d < 10,
    ensures
        c == digit_char(d as nat),
{
    if d == 0 {
        '0'
    } else if d == 1 {
        '1'
    } else if d == 2 {
        '2'
    } else if d == 3 {
        '3'
    } else if d == 4 {
        '4'
    } else if d == 5 {
        '5'
    } else if d == 6 {
        '6'
    } else if d == 7 {
        '7'
    } else if d == 8 {
        '8'
    } else {
        '9'
    }
}

/// The decimal representation of `n` as a `String` (`u64::to_string`).
pub fn decimal_string(n: u64) -> (s: String)
    ensures
        s@ == decimal(n as nat),
{
    let v = decimal_chars(n);
    string_from_chars(&v)
}

proof fn lemma_digits_value_push(s: Seq<char>, c: char)
    ensures
        digits_value(s.push(c)) == digits_value(s) * 10 + digit_val(c),
{
    assert(s.push(c).drop_last() =~= s);
}

/// Reads an unsigned decimal number: an optional `+` and at least one digit,
/// with a value of at most `max` (`from_str` of an unsigned integer type).
pub fn parse_unsigned_bounded(s: &Vec<char>, max: u64) -> (r: Option<u64>)
    ensures
        match r {
            Some(v) => parse_unsigned(s@) == Some(v as nat) && v <= max,
            None => parse_unsigned(s@) is None || parse_unsigned(s@)->0 > max,
        },
{
    let start: usize = if s.len() > 0 && s[0] == '+' {
        1
    } else {
        0
    };
    let ghost body = if s@.len() > 0 && s@[0] == '+' {
        s@.drop_first()
    } else {
        s@
    };
    assert(body =~= s@.skip(start as int));
    if start >= s.len() {
        return None;
    }
    let mut acc: u64 = 0;
    let mut i = start;
    while i < s.len()
        invariant
            start <= i <= s.len(),
            body == s@.skip(start as int),
            body == (if s@.len() > 0 && s@[0] == '+' {
                s@.drop_first()
            } else {
                s@
            }),
            start < s.len(),
            all_digits(body.take(i - start)),
            acc as nat == digits_value(body.take(i - start)),
            acc <= max,
        decreases s.len() - i,
    {
        let c = s[i];
        assert(body[i - start] == c);
        if !('0' <= c && c <= '9') {
            assert(!is_digit(body[i - start]));
            assert(!all_digits(body));
            assert(parse_unsigned(s@) is None);
            return None;
        }
        let d = (c as u32 - '0' as u32) as u64;
        proof {
            assert(body.take(i + 1 - start) =~= body.take(i - start).push(c));
            lemma_digits_value_push(body.take(i - start), c);
        }
        let next: u128 = acc as u128 * 10 + d as u128;
        if next > max as u128 {
            proof {
                lemma_digits_prefix_bound(body, (i + 1 - start) as int);
            }
            return None;
        }
        acc = next as u64;
        i = i + 1;
    }
    assert(body.take(i - start) =~= body);
    Some(acc)
}

/// Lemma: a longer run of digits never reads as a smaller number.
pub proof fn lemma_digits_prefix_bound(s: Seq<char>, k: int)
    requires
        0 <= k <= s.len(),
    ensures
        all_digits(s) ==> digits_value(s) >= digits_value(s.take(k)),
    decreases s.len() - k,
{
    if k < s.len() {
        lemma_digits_prefix_bound(s, k + 1);
        assert(s.take(k + 1).drop_last() =~= s.take(k));
    } else {
        assert(s.take(k) =~= s);
    }
}


// ─── Building text ──────────────────────────────────────────────────────────

/// Appends the characters of a string slice.
pub fn push_str(out: &mut Vec<char>, s: &str)
    ensures
        final(out)@ == old(out)@ + s@,
{
    let c = chars_of(s);
    let mut i: usize = 0;
    let ghost start = out@;
    while i < c.len()
        invariant
            i <= c.len(),
            out@ == start + c@.take(i as int),
        decreases c.len() - i,
    {
        out.push(c[i]);
        i = i + 1;
        assert(c@.take(i as int) =~= c@.take(i - 1).push(c@[i - 1]));
    }
    assert(c@.take(i as int) =~= c@);
}

/// Appends characters.
pub fn push_chars(out: &mut Vec<char>, s: &Vec<char>)
    ensures
        final(out)@ == old(out)@ + s@,
{
    let mut i: usize = 0;
    let ghost start = out@;
    while i < s.len()
        invariant
            i <= s.len(),
            out@ == start + s@.take(i as int),
        decreases s.len() - i,
    {
        out.push(s[i]);
        i = i + 1;
        assert(s@.take(i as int) =~= s@.take(i - 1).push(s@[i - 1]));
    }
    assert(s@.take(i as int) =~= s@);
}

/// Appends the decimal digits of `n`.
pub fn push_decimal(out: &mut Vec<char>, n: u64)
    ensures
        final(out)@ == old(out)@ + decimal(n as nat),
{
    let d = decimal_chars(n);
    push_chars(out, &d);
}

} // verus!
