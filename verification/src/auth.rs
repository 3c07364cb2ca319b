//! The access token for the live transport: random bytes shown as hex.

use vstd::prelude::*;

verus! {

broadcast use vstd::std_specs::vec::group_vec_axioms, vstd::seq::group_seq_axioms;

/// Relies on rand::random::<[u8; 16]>: sixteen bytes drawn from the thread's
/// generator. Nothing is promised of their values.
#[verifier::external_body]
fn random_bytes() -> [u8; 16] {
    rand::random::<[u8; 16]>()
}

/// The hexadecimal digit of a value below sixteen.
pub open spec fn hex_digit(v: u8) -> char {
    if v < 10 {
        (('0' as u8) + v) as char
    } else {
        (('a' as u8) + (v - 10)) as char
    }
}

/// The two lower-case hexadecimal digits of one byte.
pub open spec fn hex_byte(b: u8) -> Seq<char> {
    seq![hex_digit(b / 16), hex_digit(b % 16)]
}

/// The lower-case hexadecimal form of the bytes, two digits each.
pub open spec fn hex_of(bs: Seq<u8>) -> Seq<char>
    decreases bs.len(),
{
    if bs.len() == 0 {
        Seq::empty()
    } else {
        hex_byte(bs[0]) + hex_of(bs.drop_first())
    }
}

proof fn lemma_hex_of_concat(s1: Seq<u8>, s2: Seq<u8>)
    ensures
        hex_of(s1 + s2) == hex_of(s1) + hex_of(s2),
    decreases s1.len(),
{
    if s1.len() == 0 {
        assert(s1 + s2 =~= s2);
        assert(hex_of(s1) + hex_of(s2) =~= hex_of(s2));
    } else {
        lemma_hex_of_concat(s1.drop_first(), s2);
        assert((s1 + s2).drop_first() =~= s1.drop_first() + s2);
        assert(hex_of(s1 + s2) =~= hex_of(s1) + hex_of(s2));
    }
}

/// The lower-case hexadecimal form of the bytes.
pub fn to_hex(bytes: &[u8]) -> (r: String)
    ensures
        r@ == hex_of(bytes@),
        r@.len() == 2 * bytes@.len(),
{
    let mut cs: Vec<char> = Vec::new();
    let mut i: usize = 0;
    while i < bytes.len()
        invariant
            0 <= i <= bytes@.len(),
            cs@ == hex_of(bytes@.take(i as int)),
        decreases bytes@.len() - i,
    {
        let b = bytes[i];
        let hi = b / 16;
        let lo = b % 16;
        let hc: char = if hi < 10 {
            (('0' as u8) + hi) as char
        } else {
            (('a' as u8) + (hi - 10)) as char
        };
        let lc: char = if lo < 10 {
            (('0' as u8) + lo) as char
        } else {
            (('a' as u8) + (lo - 10)) as char
        };
        cs.push(hc);
        cs.push(lc);
        i += 1;
        proof {
            assert(bytes@.take(i as int) =~= bytes@.take(i - 1) + seq![bytes@[i - 1]]);
            lemma_hex_of_concat(bytes@.take(i - 1), seq![bytes@[i - 1]]);
            assert(seq![bytes@[i - 1]].drop_first() =~= Seq::<u8>::empty());
            assert(hex_of(Seq::<u8>::empty()) =~= Seq::<char>::empty());
            assert(seq![bytes@[i - 1]][0] == bytes@[i - 1]);
            assert(hex_of(seq![bytes@[i - 1]]) =~= hex_byte(bytes@[i - 1]));
            assert(cs@ =~= hex_of(bytes@.take(i as int)));
        }
    }
    proof {
        assert(bytes@.take(bytes@.len() as int) =~= bytes@);
        lemma_hex_len(bytes@);
    }
    crate::text::string_of_chars(&cs)
}

proof fn lemma_hex_len(bs: Seq<u8>)
    ensures
        hex_of(bs).len() == 2 * bs.len(),
    decreases bs.len(),
{
    if bs.len() > 0 {
        lemma_hex_len(bs.drop_first());
    }
}

/// A fresh 32-character access token: sixteen random bytes in lower-case
/// hex. Whatever bytes the generator yields, the token is 32 hex digits.
pub fn generate_token() -> (r: String)
    ensures
        r@.len() == 32,
        exists|bs: Seq<u8>| bs.len() == 16 && r@ == hex_of(bs),
{
    let bytes = random_bytes();
    let r = to_hex(bytes.as_slice());
    proof {
        assert(bytes@.len() == 16);
        assert(r@ == hex_of(bytes@));
    }
    r
}

} // verus!
