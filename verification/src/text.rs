//! Byte/character conversions and decimal numerals, shared by the tokenizer,
//! the diagnostics, and the IR emitter.

use vstd::prelude::*;

verus! {

/// The characters denoted by a sequence of bytes, one character per byte.
pub open spec fn chars_of_bytes(bs: Seq<u8>) -> Seq<char> {
    bs.map(|i: int, b: u8| b as char)
}

/// The bytes denoting a sequence of characters below U+0100, one byte per character.
pub open spec fn bytes_of_chars(cs: Seq<char>) -> Seq<u8> {
    cs.map(|i: int, c: char| (((c as int) % 256) as u8))
}

pub open spec fn all_ascii(bs: Seq<u8>) -> bool {
    forall|i: int| 0 <= i < bs.len() ==> bs[i] < 128
}

pub proof fn lemma_bytes_chars_roundtrip(bs: Seq<u8>)
    ensures
        bytes_of_chars(chars_of_bytes(bs)) =~= bs,
{
    assert forall|i: int| 0 <= i < bs.len() implies bytes_of_chars(chars_of_bytes(bs))[i] == bs[i] by {
        assert(chars_of_bytes(bs)[i] == bs[i] as char);
    }
}

/// Relies on `String::from_utf8`: ASCII bytes decode to the same sequence of
/// characters, one character per byte.
#[verifier::external_body]
pub fn ascii_to_string(bs: &Vec<u8>) -> (r: String)
    requires
        all_ascii(bs@),
    ensures
        r@ == chars_of_bytes(bs@),
{
    String::from_utf8(bs.clone()).unwrap()
}

/// Relies on `char::to_string`: the result is the one given character.
#[verifier::external_body]
pub fn char_to_string(c: char) -> (r: String)
    ensures
        r@ == seq![c],
{
    c.to_string()
}

/// The decimal digit bytes of `n`, most significant first.
pub open spec fn dec_bytes(n: nat) -> Seq<u8>
    decreases n,
{
    if n < 10 {
        seq![(48 + n) as u8]
    } else {
        dec_bytes(n / 10) + seq![(48 + n % 10) as u8]
    }
}

/// The decimal digit characters of `n`, most significant first.
pub open spec fn dec_chars(n: nat) -> Seq<char> {
    chars_of_bytes(dec_bytes(n))
}

pub proof fn lemma_dec_bytes_ascii(n: nat)
    ensures
        all_ascii(dec_bytes(n)),
        forall|i: int| 0 <= i < dec_bytes(n).len() ==> 48 <= #[trigger] dec_bytes(n)[i] <= 57,
    decreases n,
{
    if n >= 10 {
        lemma_dec_bytes_ascii(n / 10);
    }
}

/// The decimal digits of `n`, reversed and then read back, spell `n` itself.
fn dec_digits_reversed(n: u128) -> (rev: Vec<u8>)
    ensures
        rev@.reverse() == dec_bytes(n as nat),
        all_ascii(rev@),
{
    let mut m = n;
    let mut rev: Vec<u8> = Vec::new();
    loop
        invariant_except_break
            dec_bytes(n as nat) =~= dec_bytes(m as nat) + rev@.reverse(),
        invariant
            all_ascii(rev@),
        ensures
            dec_bytes(n as nat) =~= rev@.reverse(),
        decreases m,
    {
        let d: u8 = (m % 10) as u8 + 48;
        let ghost prev = rev@;
        rev.push(d);
        proof {
            assert(rev@.reverse() =~= seq![d] + prev.reverse());
        }
        if m < 10 {
            break;
        }
        m = m / 10;
    }
    proof {
        assert(dec_bytes(n as nat) =~= rev@.reverse());
    }
    rev
}

/// The decimal rendering of `n`, most significant digit first.
pub fn dec_string(n: u128) -> (s: String)
    ensures
        s@ == dec_chars(n as nat),
{
    let rev = dec_digits_reversed(n);
    let mut out: Vec<u8> = Vec::new();
    let mut i: usize = rev.len();
    while i > 0
        invariant
            i <= rev@.len(),
            out@ =~= rev@.reverse().take(rev@.len() - i),
            all_ascii(rev@),
            all_ascii(out@),
        decreases i,
    {
        i = i - 1;
        out.push(rev[i]);
        proof {
            assert(out@ =~= rev@.reverse().take(rev@.len() - i));
        }
    }
    proof {
        assert(out@ =~= rev@.reverse());
    }
    ascii_to_string(&out)
}

} // verus!

verus! {

pub open spec fn is_digit_char(c: char) -> bool {
    48 <= c as int && c as int <= 57
}

pub open spec fn all_digit_chars(cs: Seq<char>) -> bool {
    forall|i: int| 0 <= i < cs.len() ==> is_digit_char(#[trigger] cs[i])
}

/// The radix-10 value denoted by a sequence of digit characters.
pub open spec fn digits_val(cs: Seq<char>) -> nat
    decreases cs.len(),
{
    if cs.len() == 0 {
        0
    } else {
        digits_val(cs.drop_last()) * 10 + (if is_digit_char(cs.last()) {
            ((cs.last() as nat - 48) as nat)
        } else {
            0
        })
    }
}

/// The decimal digits of `n` denote `n` itself: rendering loses nothing.
pub proof fn lemma_dec_chars_roundtrip(n: nat)
    ensures
        all_digit_chars(dec_chars(n)),
        dec_chars(n).len() > 0,
        digits_val(dec_chars(n)) == n,
    decreases n,
{
    lemma_dec_bytes_ascii(n);
    assert forall|i: int| 0 <= i < dec_chars(n).len() implies is_digit_char(
        #[trigger] dec_chars(n)[i],
    ) by {
        assert(dec_chars(n)[i] == dec_bytes(n)[i] as char);
    }
    if n < 10 {
        assert(dec_chars(n) =~= seq![(48 + n) as u8 as char]);
        let c = (48 + n) as u8 as char;
        assert(c as int == 48 + n);
        assert(is_digit_char(c));
        assert(dec_chars(n).last() == c);
        assert(dec_chars(n).drop_last() =~= Seq::<char>::empty());
        assert(digits_val(Seq::<char>::empty()) == 0);
        assert(digits_val(dec_chars(n)) == ((c as nat - 48) as nat));
    } else {
        lemma_dec_chars_roundtrip(n / 10);
        assert(dec_bytes(n) == dec_bytes(n / 10) + seq![(48 + n % 10) as u8]);
        assert(dec_chars(n).drop_last() =~= dec_chars(n / 10));
        assert(dec_chars(n).last() == (48 + n % 10) as u8 as char);
    }
}

/// Parse a run of decimal digits as a `u128`. The result is exactly the
/// denoted value when the text is one or more digits whose value fits;
/// anything else gives nothing.
pub fn parse_int_literal(s: &str) -> (r: Option<u128>)
    ensures
        (match r {
            Some(v) => s@.len() > 0 && all_digit_chars(s@) && digits_val(s@) == v,
            None => s@.len() == 0 || !all_digit_chars(s@) || digits_val(s@) > u128::MAX,
        }),
{
    let n = s.unicode_len();
    if n == 0 {
        return None;
    }
    let mut acc: u128 = 0;
    let mut i: usize = 0;
    while i < n
        invariant
            i <= n,
            n == s@.len(),
            forall|x: int| 0 <= x < i ==> is_digit_char(#[trigger] s@[x]),
            acc == digits_val(s@.take(i as int)),
        decreases n - i,
    {
        let c = s.get_char(i);
        let v = c as u32;
        if !(48 <= v && v <= 57) {
            proof {
                assert(!is_digit_char(s@[i as int]));
            }
            return None;
        }
        let d: u128 = (v - 48) as u128;
        if acc > (u128::MAX - d) / 10 {
            proof {
                let t = s@.take(i as int + 1);
                assert(t.drop_last() =~= s@.take(i as int));
                assert(t.last() == s@[i as int]);
                assert(digits_val(t) == acc * 10 + d);
                lemma_digits_val_prefix_mono(s@, i as int + 1);
            }
            return None;
        }
        acc = acc * 10 + d;
        proof {
            let t = s@.take(i as int + 1);
            assert(t.drop_last() =~= s@.take(i as int));
            assert(t.last() == s@[i as int]);
            assert(acc == digits_val(t));
        }
        i = i + 1;
    }
    proof {
        assert(s@.take(n as int) =~= s@);
    }
    Some(acc)
}

/// The value of a digit string grows (weakly) with each digit appended, so a
/// prefix that already overflows settles the whole string.
proof fn lemma_digits_val_prefix_mono(cs: Seq<char>, k: int)
    requires
        0 <= k <= cs.len(),
    ensures
        digits_val(cs) >= digits_val(cs.take(k)),
    decreases cs.len() - k,
{
    if k < cs.len() {
        lemma_digits_val_prefix_mono(cs, k + 1);
        let t = cs.take(k + 1);
        assert(t.drop_last() =~= cs.take(k));
        assert(digits_val(t) == digits_val(cs.take(k)) * 10 + (if is_digit_char(t.last()) {
            ((t.last() as nat - 48) as nat)
        } else {
            0
        }));
    } else {
        assert(cs.take(k) =~= cs);
    }
}

} // verus!
