//! Hex parsing and rendering for `0x`-prefixed discriminator byte strings.
use crate::json_builder::ascii_seq;
use crate::json_builder::hex_digit;
use vstd::prelude::*;

verus! {

/// True iff `b` is an ASCII hex digit.
pub open spec fn is_hex_digit(b: u8) -> bool {
    (0x30 <= b && b <= 0x39) || (0x41 <= b && b <= 0x46) || (0x61 <= b && b <= 0x66)
}

/// The value of an ASCII hex digit.
pub open spec fn hex_val(b: u8) -> nat {
    if 0x30 <= b && b <= 0x39 {
        (b - 0x30) as nat
    } else if 0x41 <= b && b <= 0x46 {
        (b - 0x41 + 10) as nat
    } else if 0x61 <= b && b <= 0x66 {
        (b - 0x61 + 10) as nat
    } else {
        0
    }
}

/// True iff `s` is a well-formed `0x`-prefixed hex string of even length.
pub open spec fn hex_ok(s: Seq<u8>) -> bool {
    &&& s.len() >= 2
    &&& s[0] == 0x30u8
    &&& s[1] == 0x78u8
    &&& s.len() % 2 == 0
    &&& forall|i: int| 2 <= i < s.len() ==> is_hex_digit(#[trigger] s[i])
}

/// The bytes denoted by an even-length sequence of hex digits.
pub open spec fn hex_decode(s: Seq<u8>) -> Seq<u8>
    recommends
        s.len() % 2 == 0,
    decreases s.len(),
{
    if s.len() < 2 {
        Seq::empty()
    } else {
        hex_decode(s.take(s.len() - 2)) + seq![
            (hex_val(s[s.len() - 2]) * 16 + hex_val(s[s.len() - 1])) as u8,
        ]
    }
}

/// The lower-case hex digit pairs of a byte string.
pub open spec fn hex_body(b: Seq<u8>) -> Seq<u8>
    decreases b.len(),
{
    if b.len() == 0 {
        Seq::empty()
    } else {
        hex_body(b.drop_last()) + seq![
            hex_digit((b.last() / 16) as nat),
            hex_digit((b.last() % 16) as nat),
        ]
    }
}

/// The `0x`-prefixed lower-case hex rendering of a byte string.
pub open spec fn render_hex_seq(b: Seq<u8>) -> Seq<u8> {
    seq![0x30u8, 0x78u8] + hex_body(b)
}

/// Parses a `0x`-prefixed hex byte string. A missing prefix, an odd length or
/// a non-digit character rejects the string.
pub fn parse_hex(s: &[u8]) -> (r: Option<Vec<u8>>)
    ensures
        r is Some <==> hex_ok(s@),
        r matches Some(v) ==> v@ == hex_decode(s@.skip(2)),
{
    if s.len() < 2 || s[0] != 0x30 || s[1] != 0x78 {
        return None;
    }
    if s.len() % 2 != 0 {
        return None;
    }
    let mut out: Vec<u8> = Vec::new();
    let mut i: usize = 2;
    while i < s.len()
        invariant
            2 <= i <= s@.len(),
            i % 2 == 0,
            s@.len() % 2 == 0,
            s@.len() >= 2,
            forall|j: int| 2 <= j < i ==> is_hex_digit(#[trigger] s@[j]),
            out@ == hex_decode(s@.skip(2).take(i - 2)),
        decreases s@.len() - i,
    {
        let hi: u8 = s[i];
        let lo: u8 = s[i + 1];
        let hv: u8 = if 0x30 <= hi && hi <= 0x39 {
            hi - 0x30
        } else if 0x41 <= hi && hi <= 0x46 {
            hi - 0x41 + 10
        } else if 0x61 <= hi && hi <= 0x66 {
            hi - 0x61 + 10
        } else {
            return None;
        };
        let lv: u8 = if 0x30 <= lo && lo <= 0x39 {
            lo - 0x30
        } else if 0x41 <= lo && lo <= 0x46 {
            lo - 0x41 + 10
        } else if 0x61 <= lo && lo <= 0x66 {
            lo - 0x61 + 10
        } else {
            return None;
        };
        out.push(hv * 16 + lv);
        i = i + 2;
        proof {
            let p = s@.skip(2).take(i - 2);
            assert(p.take(p.len() - 2) =~= s@.skip(2).take(i - 4));
            assert(p[p.len() - 2] == s@[i - 2] && p[p.len() - 1] == s@[i - 1]);
            assert(out@ =~= hex_decode(p));
        }
    }
    proof {
        assert(s@.skip(2).take(s@.len() - 2) =~= s@.skip(2));
    }
    Some(out)
}

/// Renders a byte string as `0x`-prefixed lower-case hex.
pub fn render_hex(b: &[u8]) -> (r: Vec<u8>)
    ensures
        r@ == render_hex_seq(b@),
{
    let mut out: Vec<u8> = Vec::new();
    out.push(0x30);
    out.push(0x78);
    let mut i: usize = 0;
    while i < b.len()
        invariant
            i <= b@.len(),
            out@ == seq![0x30u8, 0x78u8] + hex_body(b@.take(i as int)),
        decreases b@.len() - i,
    {
        let v: u8 = b[i];
        out.push(if v / 16 < 10 {
            0x30 + v / 16
        } else {
            0x61 + (v / 16 - 10)
        });
        out.push(if v % 16 < 10 {
            0x30 + v % 16
        } else {
            0x61 + (v % 16 - 10)
        });
        i = i + 1;
        proof {
            assert(b@.take(i as int).drop_last() =~= b@.take(i as int - 1));
            assert(b@.take(i as int).last() == b@[i as int - 1]);
            assert(out@ =~= seq![0x30u8, 0x78u8] + hex_body(b@.take(i as int)));
        }
    }
    assert(b@.take(b@.len() as int) =~= b@);
    out
}

/// Hex renderings are ASCII.
pub proof fn lemma_hex_body_ascii(b: Seq<u8>)
    ensures
        ascii_seq(hex_body(b)),
        ascii_seq(render_hex_seq(b)),
        hex_body(b).len() == 2 * b.len(),
    decreases b.len(),
{
    if b.len() > 0 {
        lemma_hex_body_ascii(b.drop_last());
    }
}

/// Round trip: parsing a rendered hex string gives back the input bytes.
/// Stated over the specs that `render_hex` and `parse_hex` are proved against.
pub proof fn lemma_hex_round_trip(b: Seq<u8>)
    ensures
        hex_ok(render_hex_seq(b)),
        hex_decode(render_hex_seq(b).skip(2)) == b,
    decreases b.len(),
{
    lemma_hex_body_ascii(b);
    assert(render_hex_seq(b).skip(2) =~= hex_body(b));
    lemma_hex_decode_body(b);
    if b.len() == 0 {
    } else {
        lemma_hex_round_trip(b.drop_last());
        assert(forall|i: int|
            2 <= i < render_hex_seq(b).len() ==> is_hex_digit(
                #[trigger] render_hex_seq(b)[i],
            )) by {
            lemma_hex_digits_are_digits(b);
        }
    }
}

/// Every byte written by `hex_body` is a hex digit.
proof fn lemma_hex_digits_are_digits(b: Seq<u8>)
    ensures
        forall|i: int| 0 <= i < hex_body(b).len() ==> is_hex_digit(#[trigger] hex_body(b)[i]),
    decreases b.len(),
{
    if b.len() > 0 {
        lemma_hex_digits_are_digits(b.drop_last());
        let h = hex_body(b);
        let p = hex_body(b.drop_last());
        assert forall|i: int| 0 <= i < h.len() implies is_hex_digit(#[trigger] h[i]) by {
            if i < p.len() {
                assert(h[i] == p[i]);
            } else {
                assert(h[i] == hex_digit((b.last() / 16) as nat) || h[i] == hex_digit(
                    (b.last() % 16) as nat,
                ));
            }
        }
    }
}

/// Decoding the digit pairs of `hex_body(b)` yields `b`.
proof fn lemma_hex_decode_body(b: Seq<u8>)
    ensures
        hex_decode(hex_body(b)) == b,
    decreases b.len(),
{
    lemma_hex_body_ascii(b);
    if b.len() == 0 {
        assert(hex_decode(hex_body(b)) =~= b);
    } else {
        lemma_hex_decode_body(b.drop_last());
        lemma_hex_body_ascii(b.drop_last());
        let h = hex_body(b);
        assert(h.take(h.len() - 2) =~= hex_body(b.drop_last()));
        assert(h[h.len() - 2] == hex_digit((b.last() / 16) as nat));
        assert(h[h.len() - 1] == hex_digit((b.last() % 16) as nat));
        assert(hex_val(hex_digit((b.last() / 16) as nat)) == (b.last() / 16) as nat);
        assert(hex_val(hex_digit((b.last() % 16) as nat)) == (b.last() % 16) as nat);
        assert(hex_decode(h) =~= b);
    }
}

} // verus!
