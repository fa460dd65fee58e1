//! Decimal and hexadecimal text for integers, and parsing of the offset
//! text a user types: a `0x`-prefixed hexadecimal or a plain decimal
//! unsigned integer.

use vstd::prelude::*;
use vstd::std_specs::iter::IteratorSpec;
use crate::types::DecodedValue;

verus! {

/// The character for one decimal digit value.
pub open spec fn digit_char(d: int) -> char {
    if d == 0 {
        '0'
    } else if d == 1 {
        '1'
    } else if d == 2 {
        '2'
    } else if d == 3 {
        '3'
    } else if d == 4 {
        '4'
    } else if d == 5 {
        '5'
    } else if d == 6 {
        '6'
    } else if d == 7 {
        '7'
    } else if d == 8 {
        '8'
    } else {
        '9'
    }
}

/// The uppercase character for one hexadecimal digit value.
pub open spec fn hex_char(d: int) -> char {
    if d < 10 {
        digit_char(d)
    } else if d == 10 {
        'A'
    } else if d == 11 {
        'B'
    } else if d == 12 {
        'C'
    } else if d == 13 {
        'D'
    } else if d == 14 {
        'E'
    } else {
        'F'
    }
}

/// The decimal digit string of `n`, most significant digit first.
pub open spec fn dec_digits(n: nat) -> Seq<char>
    decreases n,
{
    if n < 10 {
        seq![digit_char(n as int)]
    } else {
        dec_digits(n / 10).push(digit_char((n % 10) as int))
    }
}

/// The uppercase hexadecimal digit string of `n`, most significant first.
pub open spec fn hex_digits(n: nat) -> Seq<char>
    decreases n,
{
    if n < 16 {
        seq![hex_char(n as int)]
    } else {
        hex_digits(n / 16).push(hex_char((n % 16) as int))
    }
}

/// The decimal text of an integer, with a leading minus sign if negative.
pub open spec fn int_text(v: int) -> Seq<char> {
    if v >= 0 {
        dec_digits(v as nat)
    } else {
        seq!['-'] + dec_digits((-v) as nat)
    }
}

/// The value of a digit character, in any radix up to 16; `None` for every
/// other character.
pub open spec fn raw_digit(c: char) -> Option<int> {
    match c {
        '0' => Some(0),
        '1' => Some(1),
        '2' => Some(2),
        '3' => Some(3),
        '4' => Some(4),
        '5' => Some(5),
        '6' => Some(6),
        '7' => Some(7),
        '8' => Some(8),
        '9' => Some(9),
        'a' => Some(10),
        'A' => Some(10),
        'b' => Some(11),
        'B' => Some(11),
        'c' => Some(12),
        'C' => Some(12),
        'd' => Some(13),
        'D' => Some(13),
        'e' => Some(14),
        'E' => Some(14),
        'f' => Some(15),
        'F' => Some(15),
        _ => None,
    }
}

/// The value of a digit character in the given radix.
pub open spec fn digit_in_radix(c: char, radix: int) -> Option<int> {
    match raw_digit(c) {
        Some(d) => if d < radix {
            Some(d)
        } else {
            None
        },
        None => None,
    }
}

/// Whether every character of `s` is a digit in the given radix.
pub open spec fn all_digits(s: Seq<char>, radix: int) -> bool {
    forall|i: int| 0 <= i < s.len() ==> (#[trigger] digit_in_radix(s[i], radix)) is Some
}

/// The value of a digit string in the given radix; non-digit characters
/// count as zero.
pub open spec fn val_in_radix(s: Seq<char>, radix: int) -> int
    decreases s.len(),
{
    if s.len() == 0 {
        0
    } else {
        val_in_radix(s.drop_last(), radix) * radix + (match digit_in_radix(s.last(), radix) {
            Some(d) => d,
            None => 0,
        })
    }
}

/// The meaning of offset text: a `0x`-prefixed hexadecimal unsigned
/// integer, or a plain decimal unsigned integer; anything else, and any
/// value above `usize::MAX`, is rejected.
pub open spec fn offset_text_model(s: Seq<char>) -> Option<int> {
    if s.len() >= 2 && s[0] == '0' && s[1] == 'x' {
        let h = s.subrange(2, s.len() as int);
        if h.len() > 0 && all_digits(h, 16) && val_in_radix(h, 16) <= usize::MAX {
            Some(val_in_radix(h, 16))
        } else {
            None
        }
    } else {
        if s.len() > 0 && all_digits(s, 10) && val_in_radix(s, 10) <= usize::MAX {
            Some(val_in_radix(s, 10))
        } else {
            None
        }
    }
}

/// A digit string's value is non-negative.
pub proof fn lemma_val_nonneg(s: Seq<char>, radix: int)
    requires
        radix >= 2,
    ensures
        val_in_radix(s, radix) >= 0,
    decreases s.len(),
{
    if s.len() > 0 {
        lemma_val_nonneg(s.drop_last(), radix);
        let d = match digit_in_radix(s.last(), radix) {
            Some(d) => d,
            None => 0int,
        };
        assert(val_in_radix(s.drop_last(), radix) * radix >= 0) by (nonlinear_arith)
            requires
                val_in_radix(s.drop_last(), radix) >= 0,
                radix >= 2,
        ;
    }
}

/// Dropping trailing digits can only lower a digit string's value.
pub proof fn lemma_val_prefix_le(s: Seq<char>, radix: int, i: int)
    requires
        radix >= 2,
        0 <= i <= s.len(),
    ensures
        val_in_radix(s.subrange(0, i), radix) <= val_in_radix(s, radix),
    decreases s.len() - i,
{
    if i < s.len() {
        lemma_val_prefix_le(s, radix, i + 1);
        let a = s.subrange(0, i);
        let b = s.subrange(0, i + 1);
        assert(b.drop_last() =~= a);
        lemma_val_nonneg(a, radix);
        let d = match digit_in_radix(b.last(), radix) {
            Some(d) => d,
            None => 0int,
        };
        assert(val_in_radix(a, radix) <= val_in_radix(a, radix) * radix + d) by (nonlinear_arith)
            requires
                val_in_radix(a, radix) >= 0,
                radix >= 2,
                d >= 0,
        ;
    } else {
        assert(s.subrange(0, i) =~= s);
    }
}

/// The value of a digit character, as executable code.
pub(crate) fn digit_value(c: char, radix: usize) -> (r: Option<usize>)
    requires
        radix == 10 || radix == 16,
    ensures
        match digit_in_radix(c, radix as int) {
            Some(d) => r == Some(d as usize),
            None => r is None,
        },
{
    let raw: usize = match c {
        '0' => 0,
        '1' => 1,
        '2' => 2,
        '3' => 3,
        '4' => 4,
        '5' => 5,
        '6' => 6,
        '7' => 7,
        '8' => 8,
        '9' => 9,
        'a' => 10,
        'A' => 10,
        'b' => 11,
        'B' => 11,
        'c' => 12,
        'C' => 12,
        'd' => 13,
        'D' => 13,
        'e' => 14,
        'E' => 14,
        'f' => 15,
        'F' => 15,
        _ => {
            return None;
        },
    };
    if raw < radix {
        Some(raw)
    } else {
        None
    }
}

/// Parses the digits of `s` from `start` on in the given radix; rejects an
/// empty digit string, any non-digit, and any value above `usize::MAX`.
fn parse_radix(s: &Vec<char>, start: usize, radix: usize) -> (r: Option<usize>)
    requires
        radix == 10 || radix == 16,
        start <= s@.len(),
    ensures
        ({
            let h = s@.subrange(start as int, s@.len() as int);
            match r {
                Some(v) => h.len() > 0 && all_digits(h, radix as int) && val_in_radix(
                    h,
                    radix as int,
                ) == v,
                None => !(h.len() > 0 && all_digits(h, radix as int) && val_in_radix(
                    h,
                    radix as int,
                ) <= usize::MAX),
            }
        }),
{
    let ghost h = s@.subrange(start as int, s@.len() as int);
    if start == s.len() {
        return None;
    }
    let mut acc: usize = 0;
    let mut i: usize = start;
    while i < s.len()
        invariant
            start <= i <= s@.len(),
            radix == 10 || radix == 16,
            h == s@.subrange(start as int, s@.len() as int),
            all_digits(s@.subrange(start as int, i as int), radix as int),
            acc == val_in_radix(s@.subrange(start as int, i as int), radix as int),
        decreases s@.len() - i,
    {
        let ghost pre = s@.subrange(start as int, i as int);
        let d = match digit_value(s[i], radix) {
            Some(d) => d,
            None => {
                proof {
                    assert(h[i - start] == s@[i as int]);
                    assert(!all_digits(h, radix as int));
                }
                return None;
            },
        };
        let ghost ext = s@.subrange(start as int, i + 1);
        proof {
            assert(ext.drop_last() =~= pre);
            assert(ext.last() == s@[i as int]);
            assert(forall|j: int|
                0 <= j < ext.len() ==> ext[j] == #[trigger] pre.push(s@[i as int])[j]);
        }
        let next = match acc.checked_mul(radix) {
            Some(m) => m.checked_add(d),
            None => None,
        };
        match next {
            Some(v) => {
                acc = v;
            },
            None => {
                proof {
                    if all_digits(h, radix as int) {
                        lemma_val_prefix_le(h, radix as int, i + 1 - start);
                        assert(h.subrange(0, i + 1 - start) =~= ext);
                        assert(val_in_radix(ext, radix as int) > usize::MAX);
                    }
                }
                return None;
            },
        }
        i = i + 1;
    }
    proof {
        assert(s@.subrange(start as int, i as int) =~= h);
    }
    Some(acc)
}

/// Parses offset text: `0x`-prefixed hexadecimal, or plain decimal.
pub fn parse_offset_text(s: &Vec<char>) -> (r: Option<usize>)
    ensures
        match r {
            Some(v) => offset_text_model(s@) == Some(v as int),
            None => offset_text_model(s@) is None,
        },
{
    if s.len() >= 2 && s[0] == '0' && s[1] == 'x' {
        parse_radix(s, 2, 16)
    } else {
        let r = parse_radix(s, 0, 10);
        proof {
            assert(s@.subrange(0, s@.len() as int) =~= s@);
        }
        r
    }
}

/// The character of one decimal digit, as executable code.
fn digit_char_of(d: usize) -> (c: char)
    requires
        d < 10,
    ensures
        c == digit_char(d as int),
{
    match d {
        0 => '0',
        1 => '1',
        2 => '2',
        3 => '3',
        4 => '4',
        5 => '5',
        6 => '6',
        7 => '7',
        8 => '8',
        _ => '9',
    }
}

/// The uppercase character of one hexadecimal digit, as executable code.
fn hex_char_of(d: usize) -> (c: char)
    requires
        d < 16,
    ensures
        c == hex_char(d as int),
{
    if d < 10 {
        digit_char_of(d)
    } else {
        match d {
            10 => 'A',
            11 => 'B',
            12 => 'C',
            13 => 'D',
            14 => 'E',
            _ => 'F',
        }
    }
}

/// Reverses a character vector.
fn reversed(v: &Vec<char>) -> (out: Vec<char>)
    ensures
        out@ == v@.reverse(),
{
    let mut out: Vec<char> = Vec::new();
    let mut i: usize = v.len();
    while i > 0
        invariant
            i <= v@.len(),
            out@.len() == v@.len() - i,
            forall|j: int| 0 <= j < out@.len() ==> out@[j] == v@[v@.len() - 1 - j],
        decreases i,
    {
        out.push(v[i - 1]);
        i = i - 1;
    }
    proof {
        assert(out@ =~= v@.reverse());
    }
    out
}

/// The decimal digit characters of `n`, most significant first.
pub fn dec_chars_of(n: u64) -> (out: Vec<char>)
    ensures
        out@ == dec_digits(n as nat),
{
    let mut tmp: Vec<char> = Vec::new();
    let mut m: u64 = n;
    proof {
        assert(dec_digits(n as nat) =~= dec_digits(m as nat) + tmp@.reverse());
    }
    while m >= 10
        invariant
            dec_digits(n as nat) == dec_digits(m as nat) + tmp@.reverse(),
        decreases m,
    {
        let ghost tmp0 = tmp@;
        let d = (m % 10) as usize;
        tmp.push(digit_char_of(d));
        proof {
            assert(tmp@.reverse() =~= seq![digit_char(d as int)] + tmp0.reverse());
            assert(dec_digits(m as nat) == dec_digits((m as nat) / 10).push(
                digit_char(((m as nat) % 10) as int),
            ));
            assert((m as nat) / 10 == (m / 10) as nat);
            assert(dec_digits((m / 10) as nat).push(digit_char(d as int)) + tmp0.reverse()
                =~= dec_digits((m / 10) as nat) + tmp@.reverse());
        }
        m = m / 10;
    }
    let ghost tmp0 = tmp@;
    let d = m as usize;
    tmp.push(digit_char_of(d));
    proof {
        assert(dec_digits(m as nat) =~= seq![digit_char(d as int)]);
        assert(tmp@.reverse() =~= seq![digit_char(d as int)] + tmp0.reverse());
        assert(dec_digits(n as nat) =~= tmp@.reverse());
    }
    reversed(&tmp)
}

/// The uppercase hexadecimal digit characters of `n`, most significant
/// first.
pub fn hex_chars_of(n: u64) -> (out: Vec<char>)
    ensures
        out@ == hex_digits(n as nat),
{
    let mut tmp: Vec<char> = Vec::new();
    let mut m: u64 = n;
    proof {
        assert(hex_digits(n as nat) =~= hex_digits(m as nat) + tmp@.reverse());
    }
    while m >= 16
        invariant
            hex_digits(n as nat) == hex_digits(m as nat) + tmp@.reverse(),
        decreases m,
    {
        let ghost tmp0 = tmp@;
        let d = (m % 16) as usize;
        tmp.push(hex_char_of(d));
        proof {
            assert(tmp@.reverse() =~= seq![hex_char(d as int)] + tmp0.reverse());
            assert(hex_digits(m as nat) == hex_digits((m as nat) / 16).push(
                hex_char(((m as nat) % 16) as int),
            ));
            assert((m as nat) / 16 == (m / 16) as nat);
            assert(hex_digits((m / 16) as nat).push(hex_char(d as int)) + tmp0.reverse()
                =~= hex_digits((m / 16) as nat) + tmp@.reverse());
        }
        m = m / 16;
    }
    let ghost tmp0 = tmp@;
    let d = m as usize;
    tmp.push(hex_char_of(d));
    proof {
        assert(hex_digits(m as nat) =~= seq![hex_char(d as int)]);
        assert(tmp@.reverse() =~= seq![hex_char(d as int)] + tmp0.reverse());
        assert(hex_digits(n as nat) =~= tmp@.reverse());
    }
    reversed(&tmp)
}

/// The decimal text of a signed integer, most significant digit first,
/// with a leading minus sign if negative.
pub fn int_chars_of(v: i64) -> (out: Vec<char>)
    ensures
        out@ == int_text(v as int),
{
    if v >= 0 {
        dec_chars_of(v as u64)
    } else {
        let m: u64 = if v == i64::MIN {
            0x8000_0000_0000_0000u64
        } else {
            (-v) as u64
        };
        let mut out: Vec<char> = Vec::new();
        out.push('-');
        let mut digits = dec_chars_of(m);
        out.append(&mut digits);
        proof {
            assert(out@ =~= seq!['-'] + dec_digits(m as nat));
        }
        out
    }
}

/// Relies on `String`'s `FromIterator<char>` implementation: collecting
/// characters yields the string of exactly those characters, in order.
#[verifier::external_body]
pub(crate) fn string_from_chars(v: &Vec<char>) -> (s: String)
    ensures
        s@ == v@,
{
    v.iter().collect()
}

/// The characters of a string, gathered into a vector.
pub(crate) fn chars_of_str(s: &str) -> (v: Vec<char>)
    ensures
        v@ == s@,
{
    broadcast use vstd::string::next_postcondition;
    broadcast use vstd::string::axiom_spec_iter;

    let mut it = s.chars();
    let mut v: Vec<char> = Vec::new();
    proof {
        assert(v@ + it.remaining() =~= s@);
    }
    loop
        invariant
            it.obeys_prophetic_iter_laws(),
            it.decrease() is Some,
            v@ + it.remaining() == s@,
        ensures
            v@ == s@,
        decreases it.decrease()->0,
    {
        let ghost it0 = it;
        let ghost v0 = v@;
        match it.next() {
            Some(c) => {
                v.push(c);
                proof {
                    assert(it0.remaining().len() > 0);
                    assert(c == it0.remaining()[0]);
                    assert(it.remaining() == it0.remaining().drop_first());
                    assert(v@ + it.remaining() =~= v0 + it0.remaining());
                }
            },
            None => {
                proof {
                    assert(it0.remaining().len() == 0);
                    assert(v@ + it.remaining() =~= v@);
                }
                break ;
            },
        }
    }
    v
}

impl DecodedValue {
    /// The natural decimal text of this value: base-10, signed or unsigned
    /// per the type's signedness. Floating-point bit patterns have no
    /// integer text and yield `None`; their rendering is display work.
    pub open spec fn text_model(self) -> Option<Seq<char>> {
        match self {
            DecodedValue::Unsigned(u) => Some(dec_digits(u as nat)),
            DecodedValue::Signed(i) => Some(int_text(i as int)),
            DecodedValue::Float32Bits(_) => None,
            DecodedValue::Float64Bits(_) => None,
        }
    }

    /// Renders this value as decimal text, when it is an integer value.
    pub fn to_text(&self) -> (r: Option<String>)
        ensures
            r is Some <==> self.text_model() is Some,
            r is Some ==> r->0@ == self.text_model()->0,
    {
        match self {
            DecodedValue::Unsigned(u) => {
                let chars = dec_chars_of(*u);
                Some(string_from_chars(&chars))
            },
            DecodedValue::Signed(i) => {
                let chars = int_chars_of(*i);
                Some(string_from_chars(&chars))
            },
            DecodedValue::Float32Bits(_) => None,
            DecodedValue::Float64Bits(_) => None,
        }
    }
}

} // verus!
