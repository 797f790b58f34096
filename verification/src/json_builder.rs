//! A streaming JSON writer over a byte buffer.
//!
//! Every element written inside an object or array is followed by a comma;
//! closing the object or array overwrites a trailing comma with the closing
//! bracket, so no branching on "is this the last element" is ever needed.
use vstd::prelude::*;
use vstd::string::StringSliceAdditionalSpecFns;
use vstd::utf8::encode_utf8;
use vstd::utf8::encode_utf8_valid_utf8;
use vstd::utf8::is_ascii_chars_encode_utf8;
use vstd::utf8::is_char_boundary_iff_not_is_continuation_byte;
use vstd::utf8::valid_utf8;
use vstd::utf8::valid_utf8_concat;
use vstd::utf8::valid_utf8_split;

verus! {

/// True iff every byte of `s` is ASCII.
pub open spec fn ascii_seq(s: Seq<u8>) -> bool {
    forall|i: int| 0 <= i < s.len() ==> s[i] < 128
}

/// The decimal digits of `n`, most significant first.
pub open spec fn dec_digits(n: nat) -> Seq<u8>
    decreases n,
{
    if n < 10 {
        seq![(0x30 + n) as u8]
    } else {
        dec_digits(n / 10).push((0x30 + n % 10) as u8)
    }
}

/// The decimal rendering of a signed value: a minus sign, if negative, then digits.
pub open spec fn dec_digits_int(v: int) -> Seq<u8> {
    if v < 0 {
        seq![0x2du8] + dec_digits((-v) as nat)
    } else {
        dec_digits(v as nat)
    }
}

/// Closing an object or array: a trailing comma is overwritten by the closing
/// bracket, otherwise the bracket is appended.
pub open spec fn close_seq(s: Seq<u8>, end: u8) -> Seq<u8>
    recommends
        s.len() > 0,
{
    if s.len() > 0 && s[s.len() - 1] == 0x2cu8 {
        s.update(s.len() - 1, end)
    } else {
        s.push(end)
    }
}

/// The JSON escape of one ASCII byte.
pub open spec fn esc_byte(b: u8) -> Seq<u8> {
    if b == 0x22 {
        seq![0x5cu8, 0x22u8]
    } else if b == 0x5c {
        seq![0x5cu8, 0x5cu8]
    } else if b == 0x08 {
        seq![0x5cu8, 0x62u8]
    } else if b == 0x09 {
        seq![0x5cu8, 0x74u8]
    } else if b == 0x0a {
        seq![0x5cu8, 0x6eu8]
    } else if b == 0x0c {
        seq![0x5cu8, 0x66u8]
    } else if b == 0x0d {
        seq![0x5cu8, 0x72u8]
    } else if b < 0x20 {
        seq![0x5cu8, 0x75u8, 0x30u8, 0x30u8, hex_digit((b / 16) as nat), hex_digit((b % 16) as nat)]
    } else {
        seq![b]
    }
}

/// The lower-case hex digit for a value below 16.
pub open spec fn hex_digit(v: nat) -> u8 {
    if v < 10 {
        (0x30 + v) as u8
    } else {
        (0x61 + (v - 10)) as u8
    }
}

/// The JSON escape of an ASCII byte string.
pub open spec fn json_escape(s: Seq<u8>) -> Seq<u8>
    decreases s.len(),
{
    if s.len() == 0 {
        Seq::empty()
    } else {
        json_escape(s.drop_last()) + esc_byte(s.last())
    }
}

/// The body of a JSON array of numbers: each value's digits followed by a comma.
pub open spec fn number_items(l: Seq<u8>) -> Seq<u8>
    decreases l.len(),
{
    if l.len() == 0 {
        Seq::empty()
    } else {
        number_items(l.drop_last()) + dec_digits(l.last() as nat) + seq![0x2cu8]
    }
}

/// The body of a JSON array of base58 strings: each encoding quoted, then a comma.
pub open spec fn base58_items(l: Seq<Seq<u8>>) -> Seq<u8>
    decreases l.len(),
{
    if l.len() == 0 {
        Seq::empty()
    } else {
        base58_items(l.drop_last()) + seq![0x22u8] + base58_of(l.last()) + seq![0x22u8, 0x2cu8]
    }
}

/// What `bs58::encode` returns for a given byte string (default alphabet).
pub uninterp spec fn base58_of(b: Seq<u8>) -> Seq<u8>;

/// True iff `b` is one of the 58 characters of the Bitcoin base58 alphabet
/// (digits 1-9, upper case letters without I and O, lower case without l).
pub open spec fn is_base58_byte(b: u8) -> bool {
    (0x31 <= b && b <= 0x39) || (0x41 <= b && b <= 0x5a && b != 0x49 && b != 0x4f) || (0x61 <= b
        && b <= 0x7a && b != 0x6c)
}

/// Relies on bs58::encode(..).into_vec() with the default (Bitcoin) alphabet:
/// the encoding is a pure function of the input bytes, is empty exactly for
/// empty input, and every output byte is an alphabet character.
#[verifier::external_body]
pub(crate) fn base58_encode(b: &[u8]) -> (r: Vec<u8>)
    ensures
        r@ == base58_of(b@),
        b@.len() == 0 <==> r@.len() == 0,
        forall|i: int| 0 <= i < r@.len() ==> is_base58_byte(#[trigger] r@[i]),
{
    bs58::encode(b).into_vec()
}

/// Relies on String::from_utf8: on valid UTF-8 input it returns the string
/// whose byte encoding is exactly the input (and cannot fail).
#[verifier::external_body]
pub(crate) fn utf8_string(v: Vec<u8>) -> (r: String)
    requires
        valid_utf8(v@),
    ensures
        encode_utf8(r@) == v@,
{
    String::from_utf8(v).expect("input is valid UTF-8")
}

/// True iff every byte of `v` is ASCII.
pub fn is_ascii_bytes(v: &[u8]) -> (r: bool)
    ensures
        r == ascii_seq(v@),
{
    let mut i: usize = 0;
    while i < v.len()
        invariant
            i <= v@.len(),
            forall|j: int| 0 <= j < i ==> v@[j] < 128,
        decreases v@.len() - i,
    {
        if v[i] >= 128 {
            return false;
        }
        i = i + 1;
    }
    true
}

/// Every ASCII byte string is valid UTF-8.
pub proof fn lemma_ascii_valid_utf8(s: Seq<u8>)
    requires
        ascii_seq(s),
    ensures
        valid_utf8(s),
    decreases s.len(),
{
    broadcast use valid_utf8_concat;
    broadcast use encode_utf8_valid_utf8;
    broadcast use is_ascii_chars_encode_utf8;

    if s.len() == 0 {
        let cs = Seq::<char>::empty();
        assert(encode_utf8(cs) =~= s);
    } else {
        let first = seq![s[0]];
        let cs = seq![s[0] as char];
        assert(vstd::utf8::is_ascii_chars(cs));
        assert(encode_utf8(cs) =~= first);
        lemma_ascii_valid_utf8(s.drop_first());
        assert(s =~= first + s.drop_first());
    }
}


/// A valid UTF-8 buffer extended by an ASCII suffix stays valid UTF-8.
pub proof fn lemma_valid_push(pre: Seq<u8>, suffix: Seq<u8>)
    requires
        valid_utf8(pre),
        ascii_seq(suffix),
    ensures
        valid_utf8(pre + suffix),
{
    lemma_ascii_valid_utf8(suffix);
    valid_utf8_concat(pre, suffix);
}

/// All decimal digit strings are non-empty and ASCII.
pub proof fn lemma_dec_digits_ascii(n: nat)
    ensures
        dec_digits(n).len() >= 1,
        ascii_seq(dec_digits(n)),
    decreases n,
{
    if n >= 10 {
        lemma_dec_digits_ascii(n / 10);
    }
}

/// Closing never leaves a comma just before the bracket it writes, as long as
/// the buffer does not already end in two commas.
pub proof fn lemma_close_no_comma_bracket(s: Seq<u8>, end: u8)
    requires
        s.len() > 0,
        end != 0x2cu8,
        !(s.len() >= 2 && s[s.len() - 1] == 0x2cu8 && s[s.len() - 2] == 0x2cu8),
    ensures
        close_seq(s, end).last() == end,
        close_seq(s, end).len() >= 2 ==> close_seq(s, end)[close_seq(s, end).len() - 2]
            != 0x2cu8,
{
}

/// Closing a valid UTF-8 buffer with an ASCII bracket keeps it valid UTF-8.
proof fn lemma_close_valid_utf8(s: Seq<u8>, end: u8)
    requires
        s.len() > 0,
        valid_utf8(s),
        end < 128,
    ensures
        valid_utf8(close_seq(s, end)),
{
    broadcast use valid_utf8_concat;
    broadcast use is_char_boundary_iff_not_is_continuation_byte;

    lemma_ascii_valid_utf8(seq![end]);
    if s[s.len() - 1] == 0x2cu8 {
        let cut = s.len() - 1;
        assert(vstd::utf8::is_char_boundary(s, cut)) by {
            assert(!vstd::utf8::is_continuation_byte(s[cut]));
        }
        valid_utf8_split(s, cut);
        assert(close_seq(s, end) =~= s.take(cut) + seq![end]);
    } else {
        assert(close_seq(s, end) =~= s + seq![end]);
    }
}

/// Appends decimal digits of `n` to `out`.
fn push_u64(out: &mut Vec<u8>, n: u64)
    ensures
        final (out)@ == old(out)@ + dec_digits(n as nat),
{
    let ghost init = out@;
    if n == 0 {
        out.push(0x30);
        assert(final (out)@ =~= init + dec_digits(0));
        return ;
    }
    let mut buf: Vec<u8> = Vec::new();
    let mut m: u64 = n;
    while m > 0
        invariant
            n > 0,
            (if m > 0 {
                dec_digits(m as nat)
            } else {
                Seq::<u8>::empty()
            }) + buf@.reverse() =~= dec_digits(n as nat),
        decreases m,
    {
        let ghost pre = buf@;
        buf.push((m % 10) as u8 + 0x30);
        proof {
            assert(buf@.reverse() =~= seq![(0x30 + (m as nat) % 10) as u8] + pre.reverse());
        }
        m = m / 10;
    }
    assert(buf@.reverse() =~= dec_digits(n as nat));
    let ghost digits = buf@.reverse();
    let mut i: usize = buf.len();
    while i > 0
        invariant
            i <= buf.len(),
            digits == buf@.reverse(),
            out@ =~= init + digits.take(buf@.len() - i),
        decreases i,
    {
        i = i - 1;
        let b: u8 = buf[i];
        out.push(b);
        proof {
            assert(digits[buf@.len() - 1 - (i as int)] == buf@[i as int]);
            assert(out@ =~= init + digits.take(buf@.len() - (i as int)));
        }
    }
    assert(out@ =~= init + dec_digits(n as nat));
}

/// Appends all of `b` to `out`.
fn push_bytes(out: &mut Vec<u8>, b: &[u8])
    ensures
        final (out)@ == old(out)@ + b@,
{
    out.extend_from_slice(b);
}

/// A growable byte buffer holding a JSON message under construction.
pub struct JsonBuilder {
    out: Vec<u8>,
}

impl JsonBuilder {
    /// The bytes written so far.
    pub closed spec fn bytes(self) -> Seq<u8> {
        self.out@
    }

    /// The buffer always holds valid UTF-8.
    pub open spec fn wf(self) -> bool {
        valid_utf8(self.bytes())
    }

    pub fn new() -> (r: Self)
        ensures
            r.bytes() == Seq::<u8>::empty(),
            r.wf(),
    {
        proof {
            lemma_ascii_valid_utf8(Seq::empty());
        }
        Self { out: Vec::new() }
    }

    pub fn with_capacity(cap: usize) -> (r: Self)
        ensures
            r.bytes() == Seq::<u8>::empty(),
            r.wf(),
    {
        proof {
            lemma_ascii_valid_utf8(Seq::empty());
        }
        Self { out: Vec::with_capacity(cap) }
    }

    /// Writes `n` as a decimal JSON number.
    pub fn number(&mut self, n: u64)
        requires
            old(self).wf(),
        ensures
            final (self).bytes() == old(self).bytes() + dec_digits(n as nat),
            final (self).wf(),
    {
        push_u64(&mut self.out, n);
        proof {
            lemma_dec_digits_ascii(n as nat);
            lemma_valid_push(old(self).bytes(), dec_digits(n as nat));
        }
    }

    /// Writes a signed decimal JSON number.
    pub fn number_signed(&mut self, n: i64)
        requires
            old(self).wf(),
        ensures
            final (self).bytes() == old(self).bytes() + dec_digits_int(n as int),
            final (self).wf(),
    {
        let ghost pre = self.bytes();
        if n < 0 {
            self.out.push(0x2d);
            let mag: u64 = ((-(n + 1)) as u64) + 1;
            assert(mag as int == -(n as int));
            push_u64(&mut self.out, mag);
            assert(final (self).bytes() =~= pre + dec_digits_int(n as int));
        } else {
            push_u64(&mut self.out, n as u64);
        }
        proof {
            lemma_dec_digits_ascii((if n < 0 {
                -(n as int)
            } else {
                n as int
            }) as nat);
            assert(ascii_seq(dec_digits_int(n as int)));
            assert(final (self).bytes() =~= pre + dec_digits_int(n as int));
            lemma_valid_push(pre, dec_digits_int(n as int));
        }
    }

    /// Writes `n` as a decimal number inside a JSON string, for 64-bit values
    /// that may exceed JSON number precision.
    pub fn number_str(&mut self, n: u64)
        requires
            old(self).wf(),
        ensures
            final (self).bytes() == old(self).bytes() + seq![0x22u8] + dec_digits(n as nat)
                + seq![0x22u8],
            final (self).wf(),
    {
        let ghost pre = self.bytes();
        self.out.push(0x22);
        push_u64(&mut self.out, n);
        self.out.push(0x22);
        proof {
            lemma_dec_digits_ascii(n as nat);
            assert(ascii_seq(seq![0x22u8] + dec_digits(n as nat) + seq![0x22u8]));
            assert(final (self).bytes() =~= pre + (seq![0x22u8] + dec_digits(n as nat)
                + seq![0x22u8]));
            lemma_valid_push(pre, seq![0x22u8] + dec_digits(n as nat) + seq![0x22u8]);
            assert(final (self).bytes() =~= pre + seq![0x22u8] + dec_digits(n as nat)
                + seq![0x22u8]);
        }
    }

    /// Writes a quoted string literal that is known to need no escaping.
    pub fn safe_str(&mut self, s: &str)
        requires
            old(self).wf(),
        ensures
            final (self).bytes() == old(self).bytes() + seq![0x22u8] + s.spec_bytes()
                + seq![0x22u8],
            final (self).wf(),
    {
        let ghost pre = self.bytes();
        self.out.push(0x22);
        push_bytes(&mut self.out, s.as_bytes());
        self.out.push(0x22);
        proof {
            encode_utf8_valid_utf8(s@);
            lemma_ascii_valid_utf8(seq![0x22u8]);
            valid_utf8_concat(pre, seq![0x22u8]);
            valid_utf8_concat(pre + seq![0x22u8], s.spec_bytes());
            valid_utf8_concat(pre + seq![0x22u8] + s.spec_bytes(), seq![0x22u8]);
            assert(final (self).bytes() =~= pre + seq![0x22u8] + s.spec_bytes() + seq![0x22u8]);
        }
    }

    /// Writes a quoted ASCII byte string that is known to need no escaping.
    pub fn safe_bytes(&mut self, s: &[u8])
        requires
            old(self).wf(),
            ascii_seq(s@),
        ensures
            final (self).bytes() == old(self).bytes() + seq![0x22u8] + s@ + seq![0x22u8],
            final (self).wf(),
    {
        let ghost pre = self.bytes();
        self.out.push(0x22);
        push_bytes(&mut self.out, s);
        self.out.push(0x22);
        proof {
            lemma_valid_push(pre, seq![0x22u8] + s@ + seq![0x22u8]);
            assert(final (self).bytes() =~= pre + (seq![0x22u8] + s@ + seq![0x22u8]));
            assert(final (self).bytes() =~= pre + seq![0x22u8] + s@ + seq![0x22u8]);
        }
    }

    /// Writes a known-safe property name and the following colon.
    pub fn safe_prop(&mut self, name: &str)
        requires
            old(self).wf(),
        ensures
            final (self).bytes() == old(self).bytes() + seq![0x22u8] + name.spec_bytes() + seq![
                0x22u8,
                0x3au8,
            ],
            final (self).wf(),
    {
        let ghost pre = self.bytes();
        self.safe_str(name);
        let ghost mid = self.bytes();
        self.out.push(0x3a);
        proof {
            lemma_valid_push(mid, seq![0x3au8]);
            assert(final (self).bytes() =~= mid + seq![0x3au8]);
            assert(final (self).bytes() =~= pre + seq![0x22u8] + name.spec_bytes() + seq![
                0x22u8,
                0x3au8,
            ]);
        }
    }

    /// Writes a fully escaped quoted JSON string from ASCII bytes.
    pub fn str(&mut self, s: &[u8])
        requires
            old(self).wf(),
            ascii_seq(s@),
        ensures
            final (self).bytes() == old(self).bytes() + seq![0x22u8] + json_escape(s@)
                + seq![0x22u8],
            final (self).wf(),
    {
        let ghost pre = self.bytes();
        self.out.push(0x22);
        let ghost mid = self.bytes();
        let mut i: usize = 0;
        while i < s.len()
            invariant
                i <= s@.len(),
                ascii_seq(s@),
                self.bytes() =~= mid + json_escape(s@.take(i as int)),
            decreases s@.len() - i,
        {
            let b: u8 = s[i];
            if b == 0x22 {
                self.out.push(0x5c);
                self.out.push(0x22);
            } else if b == 0x5c {
                self.out.push(0x5c);
                self.out.push(0x5c);
            } else if b == 0x08 {
                self.out.push(0x5c);
                self.out.push(0x62);
            } else if b == 0x09 {
                self.out.push(0x5c);
                self.out.push(0x74);
            } else if b == 0x0a {
                self.out.push(0x5c);
                self.out.push(0x6e);
            } else if b == 0x0c {
                self.out.push(0x5c);
                self.out.push(0x66);
            } else if b == 0x0d {
                self.out.push(0x5c);
                self.out.push(0x72);
            } else if b < 0x20 {
                self.out.push(0x5c);
                self.out.push(0x75);
                self.out.push(0x30);
                self.out.push(0x30);
                self.out.push(if b / 16 < 10 {
                    0x30 + b / 16
                } else {
                    0x61 + (b / 16 - 10)
                });
                self.out.push(if b % 16 < 10 {
                    0x30 + b % 16
                } else {
                    0x61 + (b % 16 - 10)
                });
            } else {
                self.out.push(b);
            }
            i = i + 1;
            proof {
                assert(s@.take(i as int).drop_last() =~= s@.take(i as int - 1));
                assert(s@.take(i as int).last() == s@[i as int - 1]);
                assert(self.bytes() =~= mid + json_escape(s@.take(i as int)));
            }
        }
        assert(s@.take(s@.len() as int) =~= s@);
        self.out.push(0x22);
        proof {
            lemma_json_escape_ascii(s@);
            assert(ascii_seq(seq![0x22u8] + json_escape(s@) + seq![0x22u8]));
            lemma_ascii_valid_utf8(seq![0x22u8] + json_escape(s@) + seq![0x22u8]);
            broadcast use valid_utf8_concat;

            assert(final (self).bytes() =~= pre + (seq![0x22u8] + json_escape(s@) + seq![0x22u8]));
            assert(final (self).bytes() =~= pre + seq![0x22u8] + json_escape(s@) + seq![0x22u8]);
        }
    }

    /// Writes the base58 encoding of `b` as a quoted string.
    pub fn base58(&mut self, b: &[u8])
        requires
            old(self).wf(),
        ensures
            final (self).bytes() == old(self).bytes() + seq![0x22u8] + base58_of(b@)
                + seq![0x22u8],
            final (self).wf(),
    {
        let ghost pre = self.bytes();
        self.out.push(0x22);
        let enc: Vec<u8> = base58_encode(b);
        push_bytes(&mut self.out, enc.as_slice());
        self.out.push(0x22);
        proof {
            assert(ascii_seq(enc@));
            assert(ascii_seq(seq![0x22u8] + base58_of(b@) + seq![0x22u8]));
            assert(final (self).bytes() =~= pre + (seq![0x22u8] + base58_of(b@) + seq![0x22u8]));
            lemma_valid_push(pre, seq![0x22u8] + base58_of(b@) + seq![0x22u8]);
            assert(final (self).bytes() =~= pre + seq![0x22u8] + base58_of(b@) + seq![0x22u8]);
        }
    }

    /// Splices a pre-rendered JSON fragment into the output verbatim.
    pub fn raw(&mut self, j: &[u8])
        requires
            old(self).wf(),
            valid_utf8(j@),
        ensures
            final (self).bytes() == old(self).bytes() + j@,
            final (self).wf(),
    {
        push_bytes(&mut self.out, j);
        proof {
            broadcast use valid_utf8_concat;

        }
    }

    pub fn null(&mut self)
        requires
            old(self).wf(),
        ensures
            final (self).bytes() == old(self).bytes() + "null".spec_bytes(),
            final (self).wf(),
    {
        proof {
            broadcast use valid_utf8_concat;
            broadcast use encode_utf8_valid_utf8;

        }
        push_bytes(&mut self.out, "null".as_bytes());
    }

    pub fn comma(&mut self)
        requires
            old(self).wf(),
        ensures
            final (self).bytes() == old(self).bytes() + seq![0x2cu8],
            final (self).wf(),
    {
        self.out.push(0x2c);
        proof {
            assert(final (self).bytes() =~= old(self).bytes() + seq![0x2cu8]);
            lemma_valid_push(old(self).bytes(), seq![0x2cu8]);
        }
    }

    pub fn begin_object(&mut self)
        requires
            old(self).wf(),
        ensures
            final (self).bytes() == old(self).bytes() + seq![0x7bu8],
            final (self).wf(),
    {
        self.out.push(0x7b);
        proof {
            assert(final (self).bytes() =~= old(self).bytes() + seq![0x7bu8]);
            lemma_valid_push(old(self).bytes(), seq![0x7bu8]);
        }
    }

    pub fn end_object(&mut self)
        requires
            old(self).wf(),
            old(self).bytes().len() > 0,
        ensures
            final (self).bytes() == close_seq(old(self).bytes(), 0x7du8),
            final (self).wf(),
    {
        self.close(0x7d);
    }

    pub fn begin_array(&mut self)
        requires
            old(self).wf(),
        ensures
            final (self).bytes() == old(self).bytes() + seq![0x5bu8],
            final (self).wf(),
    {
        self.out.push(0x5b);
        proof {
            assert(final (self).bytes() =~= old(self).bytes() + seq![0x5bu8]);
            lemma_valid_push(old(self).bytes(), seq![0x5bu8]);
        }
    }

    pub fn end_array(&mut self)
        requires
            old(self).wf(),
            old(self).bytes().len() > 0,
        ensures
            final (self).bytes() == close_seq(old(self).bytes(), 0x5du8),
            final (self).wf(),
    {
        self.close(0x5d);
    }

    fn close(&mut self, end: u8)
        requires
            old(self).wf(),
            old(self).bytes().len() > 0,
            end == 0x7du8 || end == 0x5du8,
        ensures
            final (self).bytes() == close_seq(old(self).bytes(), end),
            final (self).wf(),
    {
        proof {
            lemma_close_valid_utf8(old(self).bytes(), end);
        }
        let last: usize = self.out.len() - 1;
        if self.out[last] == 0x2c {
            self.out[last] = end;
        } else {
            self.out.push(end);
        }
    }

    /// Writes a whole JSON array of numbers.
    pub fn number_list(&mut self, list: &[u8])
        requires
            old(self).wf(),
        ensures
            final (self).bytes() == close_seq(
                old(self).bytes() + seq![0x5bu8] + number_items(list@),
                0x5du8,
            ),
            final (self).wf(),
    {
        self.begin_array();
        let ghost start = self.bytes();
        let mut i: usize = 0;
        while i < list.len()
            invariant
                i <= list@.len(),
                self.bytes() =~= start + number_items(list@.take(i as int)),
                self.wf(),
            decreases list@.len() - i,
        {
            let b: u8 = list[i];
            self.number(b as u64);
            self.comma();
            i = i + 1;
            proof {
                assert(list@.take(i as int).drop_last() =~= list@.take(i as int - 1));
                assert(list@.take(i as int).last() == list@[i as int - 1]);
                assert(self.bytes() =~= start + number_items(list@.take(i as int)));
            }
        }
        assert(list@.take(list@.len() as int) =~= list@);
        assert(self.bytes().len() > 0);
        self.end_array();
        assert(final (self).bytes() == close_seq(
            old(self).bytes() + seq![0x5bu8] + number_items(list@),
            0x5du8,
        )) by {
            assert(start + number_items(list@) =~= old(self).bytes() + seq![0x5bu8] + number_items(
                list@,
            ));
        }
    }

    /// Writes a whole JSON array of quoted base58 strings.
    pub fn base58_list(&mut self, list: &Vec<Vec<u8>>)
        requires
            old(self).wf(),
        ensures
            final (self).bytes() == close_seq(
                old(self).bytes() + seq![0x5bu8] + base58_items(
                    list@.map_values(|v: Vec<u8>| v@),
                ),
                0x5du8,
            ),
            final (self).wf(),
    {
        let ghost items = list@.map_values(|v: Vec<u8>| v@);
        self.begin_array();
        let ghost start = self.bytes();
        let mut i: usize = 0;
        while i < list.len()
            invariant
                i <= list@.len(),
                items == list@.map_values(|v: Vec<u8>| v@),
                self.bytes() =~= start + base58_items(items.take(i as int)),
                self.wf(),
            decreases list@.len() - i,
        {
            self.base58(list[i].as_slice());
            self.comma();
            i = i + 1;
            proof {
                assert(items.take(i as int).drop_last() =~= items.take(i as int - 1));
                assert(items.take(i as int).last() == items[i as int - 1]);
                assert(self.bytes() =~= start + base58_items(items.take(i as int)));
            }
        }
        assert(items.take(items.len() as int) =~= items);
        assert(self.bytes().len() > 0);
        self.end_array();
        assert(final (self).bytes() == close_seq(
            old(self).bytes() + seq![0x5bu8] + base58_items(items),
            0x5du8,
        )) by {
            assert(start + base58_items(items) =~= old(self).bytes() + seq![0x5bu8] + base58_items(
                items,
            ));
        }
    }

    /// Hands the finished message out as raw bytes.
    pub fn into_bytes(self) -> (r: Vec<u8>)
        ensures
            r@ == self.bytes(),
    {
        self.out
    }

    /// Hands the finished message out as a string.
    pub fn into_string(self) -> (r: String)
        requires
            self.wf(),
        ensures
            encode_utf8(r@) == self.bytes(),
    {
        utf8_string(self.out)
    }
}

/// Closing acts on the end of the buffer only: it commutes with any prefix.
pub proof fn lemma_close_append(prefix: Seq<u8>, body: Seq<u8>, end: u8)
    requires
        body.len() > 0,
    ensures
        close_seq(prefix + body, end) =~= prefix + close_seq(body, end),
{
}

/// Escaping ASCII bytes yields ASCII bytes.
pub proof fn lemma_json_escape_ascii(s: Seq<u8>)
    requires
        ascii_seq(s),
    ensures
        ascii_seq(json_escape(s)),
    decreases s.len(),
{
    if s.len() > 0 {
        lemma_json_escape_ascii(s.drop_last());
        assert(ascii_seq(esc_byte(s.last())));
    }
}

} // verus!
