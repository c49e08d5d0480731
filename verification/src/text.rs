//! Text the registry writes and checks: decimal numbers, comma-joined lists,
//! lowercase hex digits, and the shape of certificate ids and content hashes.
use vstd::prelude::*;
use vstd::utf8::*;

verus! {

/// The lowercase hex digit of `d` (for `d < 16`); for `d < 10` also the
/// decimal digit.
pub open spec fn hex_char(d: nat) -> char {
    if d == 0 { '0' }
    else if d == 1 { '1' }
    else if d == 2 { '2' }
    else if d == 3 { '3' }
    else if d == 4 { '4' }
    else if d == 5 { '5' }
    else if d == 6 { '6' }
    else if d == 7 { '7' }
    else if d == 8 { '8' }
    else if d == 9 { '9' }
    else if d == 10 { 'a' }
    else if d == 11 { 'b' }
    else if d == 12 { 'c' }
    else if d == 13 { 'd' }
    else if d == 14 { 'e' }
    else { 'f' }
}

/// The decimal representation of `n`, without leading zeros.
pub open spec fn decimal(n: nat) -> Seq<char>
    decreases n,
{
    if n < 10 {
        seq![hex_char(n)]
    } else {
        decimal(n / 10).push(hex_char(n % 10))
    }
}

/// The parts, in order, with `sep` between each two neighbours.
pub open spec fn join(parts: Seq<Seq<char>>, sep: Seq<char>) -> Seq<char>
    decreases parts.len(),
{
    if parts.len() == 0 {
        Seq::empty()
    } else if parts.len() == 1 {
        parts[0]
    } else {
        join(parts.drop_last(), sep) + sep + parts.last()
    }
}

/// The views of a list of strings.
pub open spec fn views(parts: Seq<String>) -> Seq<Seq<char>> {
    parts.map_values(|p: String| p@)
}

/// A byte that is a lowercase hex digit: `0-9` or `a-f`.
pub open spec fn is_lower_hex_byte(b: u8) -> bool {
    (48 <= b <= 57) || (97 <= b <= 102)
}

/// A content hash is 64 bytes, each a lowercase hex digit (a sha256 in hex).
pub open spec fn valid_content_hash(h: Seq<char>) -> bool {
    let b = encode_utf8(h);
    &&& b.len() == 64
    &&& forall|i: int| 0 <= i < 64 ==> is_lower_hex_byte(#[trigger] b[i])
}

/// A certificate id is 1 to 128 characters long.
pub open spec fn valid_cert_id(id: Seq<char>) -> bool {
    0 < id.len() <= 128
}

/// The content hash that `hash` builds from a seed: the seed in lowercase hex,
/// zero-padded to 64 digits.
pub open spec fn seed_hash(seed: u8) -> Seq<char> {
    Seq::new(62, |i: int| '0') + seq![hex_char((seed / 16) as nat), hex_char((seed % 16) as nat)]
}

/// The one-character string of the hex digit `d`.
fn hex_digit(d: u8) -> (r: &'static str)
    requires
        d < 16,
    ensures
        r@ == seq![hex_char(d as nat)],
{
    if d == 0 { proof { reveal_strlit("0"); } "0" }
    else if d == 1 { proof { reveal_strlit("1"); } "1" }
    else if d == 2 { proof { reveal_strlit("2"); } "2" }
    else if d == 3 { proof { reveal_strlit("3"); } "3" }
    else if d == 4 { proof { reveal_strlit("4"); } "4" }
    else if d == 5 { proof { reveal_strlit("5"); } "5" }
    else if d == 6 { proof { reveal_strlit("6"); } "6" }
    else if d == 7 { proof { reveal_strlit("7"); } "7" }
    else if d == 8 { proof { reveal_strlit("8"); } "8" }
    else if d == 9 { proof { reveal_strlit("9"); } "9" }
    else if d == 10 { proof { reveal_strlit("a"); } "a" }
    else if d == 11 { proof { reveal_strlit("b"); } "b" }
    else if d == 12 { proof { reveal_strlit("c"); } "c" }
    else if d == 13 { proof { reveal_strlit("d"); } "d" }
    else if d == 14 { proof { reveal_strlit("e"); } "e" }
    else { proof { reveal_strlit("f"); } "f" }
}

/// The decimal representation of `n`.
pub fn decimal_string(n: u64) -> (r: String)
    ensures
        r@ == decimal(n as nat),
    decreases n,
{
    if n < 10 {
        String::from_str(hex_digit(n as u8))
    } else {
        let mut s = decimal_string(n / 10);
        s.append(hex_digit((n % 10) as u8));
        s
    }
}

/// The strings joined with `sep` between neighbours.
pub fn join_strings(parts: &Vec<String>, sep: &str) -> (r: String)
    ensures
        r@ == join(views(parts@), sep@),
{
    let mut res = String::new();
    let ghost ps = views(parts@);
    let mut i: usize = 0;
    while i < parts.len()
        invariant
            i <= parts.len(),
            ps == views(parts@),
            res@ == join(ps.take(i as int), sep@),
        decreases parts.len() - i,
    {
        assert(ps.take(i + 1).drop_last() =~= ps.take(i as int));
        if i != 0 {
            res.append(sep);
        } else {
            assert(ps.take(i as int) =~= Seq::<Seq<char>>::empty());
        }
        res.append(parts[i].as_str());
        assert(ps.take(i + 1).last() == parts@[i as int]@);
        i = i + 1;
    }
    assert(ps.take(parts.len() as int) =~= ps);
    res
}

/// The shape check of a content hash: exactly 64 bytes, all lowercase hex.
pub fn is_content_hash(h: &str) -> (r: bool)
    ensures
        r == valid_content_hash(h@),
{
    let b = h.as_bytes();
    if b.len() != 64 {
        return false;
    }
    let mut i: usize = 0;
    while i < b.len()
        invariant
            b@ == encode_utf8(h@),
            b.len() == 64,
            i <= 64,
            forall|j: int| 0 <= j < i ==> is_lower_hex_byte(#[trigger] b@[j]),
        decreases 64 - i,
    {
        let c = b[i];
        if !((48 <= c && c <= 57) || (97 <= c && c <= 102)) {
            return false;
        }
        i = i + 1;
    }
    true
}

/// A 64-digit lowercase hex content hash made from a one-byte seed.
pub fn hash(seed: u8) -> (r: String)
    ensures
        r@ == seed_hash(seed),
        valid_content_hash(r@),
{
    let mut s = String::new();
    let mut i: usize = 0;
    while i < 62
        invariant
            i <= 62,
            s@ =~= Seq::new(i as nat, |k: int| '0'),
        decreases 62 - i,
    {
        s.append(hex_digit(0));
        i = i + 1;
    }
    s.append(hex_digit(seed / 16));
    s.append(hex_digit(seed % 16));
    proof {
        let v = s@;
        assert(v =~= seed_hash(seed));
        assert(is_ascii_chars(v));
        is_ascii_chars_encode_utf8(v);
        assert forall|i: int| 0 <= i < 64 implies is_lower_hex_byte(#[trigger] encode_utf8(v)[i]) by {
            assert(v[i] as u8 == encode_utf8(v)[i]);
        }
    }
    s
}

} // verus!
