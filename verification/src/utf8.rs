//! Byte lengths of text in UTF-8, for byte offsets into strings.
use vstd::prelude::*;

verus! {

/// Bytes of a character in UTF-8.
pub open spec fn char_width(c: char) -> nat {
    let v = c as u32;
    if v < 0x80 {
        1
    } else if v < 0x800 {
        2
    } else if v < 0x10000 {
        3
    } else {
        4
    }
}

/// Bytes of a text in UTF-8.
pub open spec fn utf8_len(s: Seq<char>) -> nat
    decreases s.len(),
{
    if s.len() == 0 {
        0
    } else {
        utf8_len(s.drop_last()) + char_width(s.last())
    }
}

/// The characters that fill exactly the first `b` bytes, when byte `b`
/// falls between two characters (or at an end).
pub open spec fn byte_prefix(s: Seq<char>, b: nat) -> Option<Seq<char>> {
    if exists|k: int| 0 <= k <= s.len() && #[trigger] utf8_len(s.take(k)) == b {
        Some(s.take(choose|k: int| 0 <= k <= s.len() && #[trigger] utf8_len(s.take(k)) == b))
    } else {
        None
    }
}

/// The byte length of a prefix grows with the prefix.
pub proof fn lemma_utf8_prefix_increasing(s: Seq<char>, j: int, k: int)
    requires
        0 <= j < k <= s.len(),
    ensures
        utf8_len(s.take(j)) < utf8_len(s.take(k)),
    decreases k - j,
{
    assert(s.take(k).drop_last() =~= s.take(k - 1));
    if j < k - 1 {
        lemma_utf8_prefix_increasing(s, j, k - 1);
    }
}

/// The width of a character.
pub fn char_width_of(c: char) -> (w: u64)
    ensures
        w == char_width(c),
{
    let v = c as u32;
    if v < 0x80 {
        1
    } else if v < 0x800 {
        2
    } else if v < 0x10000 {
        3
    } else {
        4
    }
}

/// The characters filling the first `b` bytes of `s`, if byte `b` falls
/// between characters; also whether `s` has at least `b` bytes.
pub fn prefix_of_bytes(s: &Vec<char>, b: u64) -> (r: (Option<Vec<char>>, bool))
    ensures
        r.1 == (utf8_len(s@) >= b),
        match byte_prefix(s@, b as nat) {
            Some(p) => r.0 matches Some(v) && v@ == p,
            None => r.0 is None,
        },
{
    let mut k: usize = 0;
    let mut acc: u128 = 0;
    while k < s.len() && acc < b as u128
        invariant
            k <= s@.len(),
            acc == utf8_len(s@.take(k as int)),
            forall|j: int| 0 <= j < k ==> #[trigger] utf8_len(s@.take(j)) < b,
            acc <= b + 4,
        decreases s.len() - k,
    {
        assert(s@.take(k + 1).drop_last() =~= s@.take(k as int));
        let w = char_width_of(s[k]);
        acc = acc + w as u128;
        k = k + 1;
    }
    let at_least: bool;
    if acc >= b as u128 {
        at_least = true;
        proof {
            if k < s@.len() {
                lemma_utf8_prefix_increasing(s@, k as int, s@.len() as int);
            }
            assert(s@.take(s@.len() as int) =~= s@);
        }
    } else {
        at_least = false;
        assert(s@.take(k as int) =~= s@);
    }
    if acc == b as u128 {
        proof {
            let c = choose|c: int| 0 <= c <= s@.len() && #[trigger] utf8_len(s@.take(c)) == b;
            if c < k {
                assert(utf8_len(s@.take(c)) < b);
            } else if c > k {
                lemma_utf8_prefix_increasing(s@, k as int, c);
            }
        }
        let p = crate::text::sub_vec(s, 0, k);
        assert(p@ =~= s@.take(k as int));
        (Some(p), at_least)
    } else {
        proof {
            assert forall|c: int| 0 <= c <= s@.len() implies #[trigger] utf8_len(s@.take(c)) != b by {
                if c < k {
                } else if c > k {
                    lemma_utf8_prefix_increasing(s@, k as int, c);
                } else {
                }
            }
        }
        (None, at_least)
    }
}

} // verus!
