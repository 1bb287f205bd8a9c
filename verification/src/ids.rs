//! Step, workflow and node identifiers: 128-bit values drawn, parsed and
//! printed by the `uuid` crate.
use vstd::prelude::*;

verus! {

/// The lower-case hexadecimal digit of a value below sixteen.
pub open spec fn hex_lower(d: u128) -> char {
    if d < 10 {
        (d + 48) as char
    } else {
        (d + 87) as char
    }
}

/// The `k`-th four-bit group of `v`, most significant first.
pub open spec fn nibble(v: u128, k: int) -> u128 {
    (v >> (((31 - k) * 4) as u128)) & 0xf
}

/// The hyphenated lower-case text of a UUID value, `8-4-4-4-12` hex digits.
pub open spec fn uuid_hyphenated(v: u128) -> Seq<char> {
    Seq::new(
        36,
        |p: int|
            if p == 8 || p == 13 || p == 18 || p == 23 {
                '-'
            } else {
                let k = if p < 8 {
                    p
                } else if p < 13 {
                    p - 1
                } else if p < 18 {
                    p - 2
                } else if p < 23 {
                    p - 3
                } else {
                    p - 4
                };
                hex_lower(nibble(v, k))
            },
    )
}

/// The value of a hexadecimal digit (either case).
pub open spec fn hex_value(c: char) -> Option<nat> {
    if '0' <= c && c <= '9' {
        Some((c as nat - '0' as nat) as nat)
    } else if 'a' <= c && c <= 'f' {
        Some((c as nat - 'a' as nat + 10) as nat)
    } else if 'A' <= c && c <= 'F' {
        Some((c as nat - 'A' as nat + 10) as nat)
    } else {
        None
    }
}

/// The value of a run of hexadecimal digits, most significant first, or
/// nothing when some character is not one.
pub open spec fn hex_digits_value(s: Seq<char>) -> Option<nat>
    decreases s.len(),
{
    if s.len() == 0 {
        Some(0)
    } else {
        match (hex_digits_value(s.drop_last()), hex_value(s.last())) {
            (Some(a), Some(d)) => Some(a * 16 + d),
            _ => None,
        }
    }
}

/// A UUID written as 32 hexadecimal digits.
pub open spec fn simple_uuid(s: Seq<char>) -> Option<u128> {
    if s.len() == 32 {
        match hex_digits_value(s) {
            Some(v) => Some(v as u128),
            None => None,
        }
    } else {
        None
    }
}

/// A UUID written as `8-4-4-4-12` hexadecimal digits.
pub open spec fn hyphenated_uuid(s: Seq<char>) -> Option<u128> {
    if s.len() == 36 && s[8] == '-' && s[13] == '-' && s[18] == '-' && s[23] == '-' {
        simple_uuid(
            s.subrange(0, 8) + s.subrange(9, 13) + s.subrange(14, 18) + s.subrange(19, 23) + s.subrange(24, 36),
        )
    } else {
        None
    }
}

/// A character with ASCII capitals made small.
pub open spec fn ascii_lower(c: char) -> char {
    if 'A' <= c && c <= 'Z' {
        ((c as u32) + 32) as char
    } else {
        c
    }
}

/// What `uuid::Uuid::parse_str` makes of a text: 32 hexadecimal digits; the
/// hyphenated form; the hyphenated form in braces; or `urn:uuid:` (in any
/// case) before the hyphenated form. The digits, in either case, are read
/// most significant first; any other text is rejected.
pub open spec fn uuid_parse_result(s: Seq<char>) -> Option<u128> {
    if s.len() == 32 {
        simple_uuid(s)
    } else if s.len() == 36 {
        hyphenated_uuid(s)
    } else if s.len() == 38 && s[0] == '{' && s[37] == '}' {
        hyphenated_uuid(s.subrange(1, 37))
    } else if s.len() == 45 && s.take(9).map_values(|c: char| ascii_lower(c)) == "urn:uuid:"@ {
        hyphenated_uuid(s.skip(9))
    } else {
        None
    }
}

/// A fresh random version-4 UUID (`uuid::Uuid::new_v4`), as its 128-bit value.
/// The crate's source sets the version nibble to 4 and the variant bits to
/// `10`; the other bits are random, so nothing else is promised.
#[verifier::external_body]
pub(crate) fn new_uuid() -> (id: u128)
    ensures
        (id >> 76u128) & 0xf == 4,
        (id >> 62u128) & 0x3 == 2,
{
    uuid::Uuid::new_v4().as_u128()
}

/// Parses a UUID text (`uuid::Uuid::parse_str`, then `Uuid::as_u128`, which
/// reads the bytes big-endian); `None` when the crate rejects it. The
/// accepted forms and their values are `uuid_parse_result`.
#[verifier::external_body]
pub(crate) fn parse_uuid(s: &str) -> (r: Option<u128>)
    ensures
        r == uuid_parse_result(s@),
{
    match uuid::Uuid::parse_str(s) {
        Ok(u) => Some(u.as_u128()),
        Err(_) => None,
    }
}

/// The 32 hexadecimal digits of a UUID value, most significant first.
pub open spec fn uuid_digits(v: u128) -> Seq<char> {
    Seq::new(32, |k: int| hex_lower(nibble(v, k)))
}

/// A digit printed by `hex_lower` reads back as its value.
proof fn lemma_hex_lower_reads_back(d: u128)
    requires
        d < 16,
    ensures
        hex_value(hex_lower(d)) == Some(d as nat),
{
}

/// Reading a value's first `n` digits gives its top `4 n` bits.
proof fn lemma_digits_prefix(v: u128, n: int)
    requires
        1 <= n <= 32,
    ensures
        hex_digits_value(uuid_digits(v).take(n)) == Some((v >> ((128 - 4 * n) as u128)) as nat),
    decreases n,
{
    let ds = uuid_digits(v);
    let t = ds.take(n);
    assert(t.drop_last() =~= ds.take(n - 1));
    let sh: u128 = ((31 - (n - 1)) * 4) as u128;
    assert(nibble(v, n - 1) == (v >> sh) & 0xf);
    assert((v >> sh) & 0xf < 16) by (bit_vector);
    lemma_hex_lower_reads_back(nibble(v, n - 1));
    if n == 1 {
        assert(ds.take(0) =~= Seq::<char>::empty());
        let x = v;
        assert((x >> 124u128) & 0xf == x >> 124u128) by (bit_vector);
    } else {
        lemma_digits_prefix(v, n - 1);
        let s: u128 = (128 - 4 * n) as u128;
        assert(s + 4 <= 124);
        assert((v >> (s + 4)) * 16 + ((v >> s) & 0xf) == v >> s) by (bit_vector)
            requires
                s + 4 <= 124;
    }
}

/// The uuid parser reads the hyphenated text of a value back to it.
pub proof fn lemma_hyphenated_reads_back(v: u128)
    ensures
        uuid_parse_result(uuid_hyphenated(v)) == Some(v),
{
    let h = uuid_hyphenated(v);
    let joined = h.subrange(0, 8) + h.subrange(9, 13) + h.subrange(14, 18) + h.subrange(19, 23) + h.subrange(24, 36);
    assert(joined =~= uuid_digits(v));
    lemma_digits_prefix(v, 32);
    assert(uuid_digits(v).take(32) =~= uuid_digits(v));
    assert(v >> 0u128 == v) by (bit_vector);
}

/// The text of a UUID as its `Display` impl writes it (`uuid::Uuid::to_string`):
/// hyphenated lower-case hexadecimal, most significant digit first.
#[verifier::external_body]
pub(crate) fn uuid_string(v: u128) -> (s: String)
    ensures
        s@ == uuid_hyphenated(v),
{
    uuid::Uuid::from_u128(v).to_string()
}


/// `v` holds the number `d`.
pub open spec fn taken(v: Seq<u128>, d: int) -> bool {
    v.contains(d as u128)
}

/// Lemma: a list of `n` values cannot hold all of `0..=n`.
pub proof fn lemma_pigeonhole(v: Seq<u128>)
    requires
        v.len() < 0x1_0000_0000_0000_0000,
    ensures
        exists|d: int| 0 <= d <= v.len() && !#[trigger] taken(v, d),
{
    if forall|d: int| 0 <= d <= v.len() ==> #[trigger] taken(v, d) {
        lemma_all_taken_impossible(v);
    }
}

proof fn lemma_all_taken_impossible(v: Seq<u128>)
    requires
        v.len() < 0x1_0000_0000_0000_0000,
        forall|d: int| 0 <= d <= v.len() ==> #[trigger] taken(v, d),
    ensures
        v.len() + 1 <= v.len(),
{
    let vals = v.map_values(|x: u128| x as int);
    let s = vals.to_set();
    vals.lemma_cardinality_of_set();
    vstd::set_lib::lemma_int_range(0, v.len() as int + 1);
    let r = vstd::set_lib::set_int_range(0, v.len() as int + 1);
    assert forall|d: int| r.contains(d) implies s.contains(d) by {
        assert(taken(v, d));
        let k = choose|k: int| 0 <= k < v.len() && v[k] == d as u128;
        assert(vals[k] == d);
    }
    vstd::set_lib::lemma_len_subset(r, s);
}

/// An identifier that is not in `avoid`: a fresh random UUID, or (should it
/// already be taken) the smallest number that is not.
pub fn fresh_id_avoiding(avoid: &Vec<u128>) -> (id: u128)
    ensures
        !avoid@.contains(id),
        ((id >> 76u128) & 0xf == 4 && (id >> 62u128) & 0x3 == 2) || forall|d: int| 0 <= d < id ==> #[trigger] taken(
            avoid@,
            d,
        ),
{
    let id = new_uuid();
    if !contains_u128(avoid, id) {
        return id;
    }
    let n = avoid.len() as u128;
    let mut c: u128 = 0;
    while c <= n
        invariant
            n == avoid@.len(),
            n <= usize::MAX,
            c <= n + 1,
            forall|d: int| 0 <= d < c ==> #[trigger] taken(avoid@, d),
        decreases n + 1 - c,
    {
        if !contains_u128(avoid, c) {
            return c;
        }
        c = c + 1;
    }
    proof {
        lemma_pigeonhole(avoid@);
    }
    0
}

/// Whether `v` holds `x`.
pub fn contains_u128(v: &Vec<u128>, x: u128) -> (r: bool)
    ensures
        r == v@.contains(x),
{
    let mut i: usize = 0;
    while i < v.len()
        invariant
            i <= v.len(),
            forall|j: int| 0 <= j < i ==> v@[j] != x,
        decreases v.len() - i,
    {
        if v[i] == x {
            return true;
        }
        i = i + 1;
    }
    false
}

/// The hyphenated lower-case text of a UUID value, which the UUID parser
/// reads back to the value.
pub fn uuid_text(v: u128) -> (s: String)
    ensures
        s@ == uuid_hyphenated(v),
        uuid_parse_result(s@) == Some(v),
{
    proof {
        lemma_hyphenated_reads_back(v);
    }
    uuid_string(v)
}

/// The UUID value a text gives, if it is one of the forms the UUID parser
/// accepts.
pub fn uuid_from_text(s: &str) -> (r: Option<u128>)
    ensures
        r == uuid_parse_result(s@),
{
    parse_uuid(s)
}

} // verus!

