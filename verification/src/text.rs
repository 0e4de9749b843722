use vstd::prelude::*;

verus! {

/// Whitespace in the dialect: the four ASCII whitespace characters that
/// the daemon inserts between elements.
pub open spec fn ws_char(c: char) -> bool {
    c == ' ' || c == '\n' || c == '\t' || c == '\r'
}

/// Characters allowed in an element name.
pub open spec fn tag_char(c: char) -> bool {
    let u = c as u32;
    (('a' as u32) <= u && u <= ('z' as u32)) || (('A' as u32) <= u && u <= ('Z' as u32)) || ((
    '0' as u32) <= u && u <= ('9' as u32)) || c == '_' || c == '-'
}

/// The decimal digit characters.
pub open spec fn digit_char(c: char) -> bool {
    ('0' as u32) <= c as u32 && c as u32 <= ('9' as u32)
}

/// The numeric value of a decimal digit character.
pub open spec fn digit_val(c: char) -> nat
    recommends
        digit_char(c),
{
    (c as u32 - '0' as u32) as nat
}

/// The decimal digit character for a value below ten.
pub open spec fn digit_of(d: nat) -> char
    recommends
        d < 10,
{
    if d == 0 {
        '0'
    } else if d == 1 {
        '1'
    } else if d == 2 {
        '2'
    } else if d == 3 {
        '3'
    } else if d == 4 {
        '4'
    } else if d == 5 {
        '5'
    } else if d == 6 {
        '6'
    } else if d == 7 {
        '7'
    } else if d == 8 {
        '8'
    } else {
        '9'
    }
}

/// The canonical decimal rendering of a natural number: no sign, no
/// leading zeros (except for zero itself).
pub open spec fn dec_str(n: nat) -> Seq<char>
    decreases n,
{
    if n < 10 {
        seq![digit_of(n)]
    } else {
        dec_str(n / 10) + seq![digit_of(n % 10)]
    }
}

/// The canonical decimal rendering of an integer: a minus sign for
/// negative values, then the digits.
pub open spec fn int_str(v: int) -> Seq<char> {
    if v < 0 {
        seq!['-'] + dec_str((-v) as nat)
    } else {
        dec_str(v as nat)
    }
}

/// The value of a digit string, most significant digit first.
pub open spec fn dec_val(s: Seq<char>) -> nat
    decreases s.len(),
{
    if s.len() == 0 {
        0
    } else {
        dec_val(s.drop_last()) * 10 + digit_val(s.last())
    }
}

pub open spec fn all_digits(s: Seq<char>) -> bool {
    forall|i: int| 0 <= i < s.len() ==> digit_char(s[i])
}

/// The digit part of a signed decimal string: what follows an optional
/// leading sign.
pub open spec fn int_digits(s: Seq<char>) -> Seq<char> {
    if s.len() > 0 && (s[0] == '-' || s[0] == '+') {
        s.subrange(1, s.len() as int)
    } else {
        s
    }
}

pub open spec fn int_neg(s: Seq<char>) -> bool {
    s.len() > 0 && s[0] == '-'
}

/// What parsing a string as a 32-bit signed integer yields: an optional
/// sign, then one or more digits, whose value must be in range.
pub open spec fn parse_i32_spec(s: Seq<char>) -> Option<i32> {
    if int_digits(s).len() == 0 || !all_digits(int_digits(s)) {
        None
    } else if int_neg(s) && dec_val(int_digits(s)) <= 0x8000_0000 {
        Some((-(dec_val(int_digits(s)) as int)) as i32)
    } else if !int_neg(s) && dec_val(int_digits(s)) <= 0x7fff_ffff {
        Some(dec_val(int_digits(s)) as i32)
    } else {
        None
    }
}

/// A digit character as a one-character string slice.
fn digit_literal(d: u32) -> (r: &'static str)
    requires
        d < 10,
    ensures
        r@ == seq![digit_of(d as nat)],
{
    proof {
        reveal_strlit("0");
        reveal_strlit("1");
        reveal_strlit("2");
        reveal_strlit("3");
        reveal_strlit("4");
        reveal_strlit("5");
        reveal_strlit("6");
        reveal_strlit("7");
        reveal_strlit("8");
        reveal_strlit("9");
    }
    if d == 0 {
        "0"
    } else if d == 1 {
        "1"
    } else if d == 2 {
        "2"
    } else if d == 3 {
        "3"
    } else if d == 4 {
        "4"
    } else if d == 5 {
        "5"
    } else if d == 6 {
        "6"
    } else if d == 7 {
        "7"
    } else if d == 8 {
        "8"
    } else {
        "9"
    }
}

/// Renders an unsigned value in decimal.
pub fn u32_to_string(n: u32) -> (r: String)
    ensures
        r@ == dec_str(n as nat),
    decreases n,
{
    if n < 10 {
        String::from_str(digit_literal(n))
    } else {
        let prefix = u32_to_string(n / 10);
        prefix.concat(digit_literal(n % 10))
    }
}

/// Compares two string slices character by character.
pub fn str_eq(a: &str, b: &str) -> (r: bool)
    ensures
        r == (a@ == b@),
{
    let alen = a.unicode_len();
    let blen = b.unicode_len();
    if alen != blen {
        proof {
            assert(a@ != b@);
        }
        return false;
    }
    for i in 0..alen
        invariant
            alen == a@.len(),
            alen == b@.len(),
            forall|j: int| 0 <= j < i ==> a@[j] == b@[j],
    {
        if a.get_char(i) != b.get_char(i) {
            proof {
                assert(a@ != b@);
            }
            return false;
        }
    }
    proof {
        assert(a@ =~= b@);
    }
    true
}

/// Parses a string slice as a 32-bit signed integer, exactly as the
/// standard decimal parser does: an optional sign, then only digits.
pub fn parse_i32(s: &str) -> (r: Option<i32>)
    ensures
        r == parse_i32_spec(s@),
{
    let len = s.unicode_len();
    if len == 0 {
        return None;
    }
    proof {
        assert(s@.subrange(0, len as int) =~= s@);
    }
    let c0 = s.get_char(0);
    let neg: bool = c0 == '-';
    let start: usize = if c0 == '-' || c0 == '+' {
        1
    } else {
        0
    };
    let ghost digits = s@.subrange(start as int, len as int);
    if start == len {
        proof {
            assert(digits.len() == 0);
        }
        return None;
    }
    // The accumulator saturates just above the 32-bit range, which is
    // enough to decide that the value is out of range.
    let sat: u64 = 0x1_0000_0000;
    let mut m: u64 = 0;
    let mut i: usize = start;
    while i < len
        invariant
            start <= i <= len,
            len == s@.len(),
            len > 0,
            start == 0 || start == 1,
            start == 1 <==> (s@[0] == '-' || s@[0] == '+'),
            neg == (s@[0] == '-'),
            digits == s@.subrange(start as int, len as int),
            sat == 0x1_0000_0000u64,
            m <= sat,
            all_digits(s@.subrange(start as int, i as int)),
            dec_val(s@.subrange(start as int, i as int)) < sat ==> m == dec_val(
                s@.subrange(start as int, i as int),
            ),
            dec_val(s@.subrange(start as int, i as int)) >= sat ==> m == sat,
        decreases len - i,
    {
        let c = s.get_char(i);
        let u = c as u32;
        if u < '0' as u32 || u > '9' as u32 {
            proof {
                assert(digits[i - start] == s@[i as int]);
                assert(!digit_char(digits[i - start]));
                assert(!all_digits(digits));
                if start == 1 {
                    assert(s@[0] == '-' || s@[0] == '+');
                    assert(int_digits(s@) =~= digits);
                } else {
                    assert(!(s@[0] == '-' || s@[0] == '+'));
                    assert(digits =~= s@);
                    assert(int_digits(s@) == s@);
                }
                assert(!all_digits(int_digits(s@)));
                assert(parse_i32_spec(s@) is None);
            }
            return None;
        }
        let d: u64 = (u - '0' as u32) as u64;
        let ghost pre = s@.subrange(start as int, i as int);
        let ghost post = s@.subrange(start as int, i + 1);
        proof {
            assert(post.drop_last() =~= pre);
            assert(post.last() == s@[i as int]);
            assert(dec_val(post) == dec_val(pre) * 10 + d);
        }
        m = m * 10 + d;
        if m >= sat {
            m = sat;
        }
        i += 1;
    }
    proof {
        assert(s@.subrange(start as int, len as int) == digits);
    }
    if neg {
        if m <= 0x8000_0000 {
            let v: i64 = -(m as i64);
            Some(v as i32)
        } else {
            None
        }
    } else {
        if m <= 0x7fff_ffff {
            Some(m as i32)
        } else {
            None
        }
    }
}

/// Renders a signed value in decimal, as the standard formatter does.
pub fn i32_to_string(v: i32) -> (r: String)
    ensures
        r@ == int_str(v as int),
{
    if v >= 0 {
        u32_to_string(v as u32)
    } else {
        let m: u32 = if v == i32::MIN {
            0x8000_0000
        } else {
            (-v) as u32
        };
        proof {
            reveal_strlit("-");
        }
        let s = String::from_str("-");
        s.concat(u32_to_string(m).as_str())
    }
}

} // verus!


verus! {

pub fn is_ws_char(c: char) -> (r: bool)
    ensures
        r == ws_char(c),
{
    c == ' ' || c == '\n' || c == '\t' || c == '\r'
}

pub fn is_tag_char(c: char) -> (r: bool)
    ensures
        r == tag_char(c),
{
    let u = c as u32;
    (('a' as u32) <= u && u <= ('z' as u32)) || (('A' as u32) <= u && u <= ('Z' as u32)) || (('0'
        as u32) <= u && u <= ('9' as u32)) || c == '_' || c == '-'
}

} // verus!

verus! {

proof fn lemma_digit_of_val(d: nat)
    requires
        d < 10,
    ensures
        digit_char(digit_of(d)),
        digit_val(digit_of(d)) == d,
{
}

proof fn lemma_dec_str_digits(n: nat)
    ensures
        dec_str(n).len() > 0,
        all_digits(dec_str(n)),
    decreases n,
{
    if n < 10 {
        lemma_digit_of_val(n);
    } else {
        lemma_dec_str_digits(n / 10);
        lemma_digit_of_val(n % 10);
        assert forall|i: int| 0 <= i < dec_str(n).len() implies digit_char(dec_str(n)[i]) by {
            if i < dec_str(n / 10).len() {
                assert(dec_str(n)[i] == dec_str(n / 10)[i]);
            } else {
                assert(dec_str(n)[i] == digit_of(n % 10));
            }
        }
    }
}

proof fn lemma_dec_val_dec_str(n: nat)
    ensures
        dec_val(dec_str(n)) == n,
    decreases n,
{
    if n < 10 {
        lemma_digit_of_val(n);
        assert(dec_str(n).drop_last() =~= Seq::<char>::empty());
        assert(dec_str(n).last() == digit_of(n));
        assert(dec_val(Seq::<char>::empty()) == 0);
        assert(dec_val(dec_str(n)) == 0 * 10 + digit_val(digit_of(n)));
    } else {
        lemma_dec_val_dec_str(n / 10);
        lemma_digit_of_val(n % 10);
        lemma_dec_str_digits(n / 10);
        assert(dec_str(n).drop_last() =~= dec_str(n / 10));
        assert(dec_str(n).last() == digit_of(n % 10));
    }
}

/// Round trip: the canonical decimal rendering of any 32-bit value
/// parses back to that very value.
pub proof fn lemma_parse_int_roundtrip(v: i32)
    ensures
        parse_i32_spec(int_str(v as int)) == Some(v),
{
    if v >= 0 {
        let s = dec_str(v as nat);
        lemma_dec_str_digits(v as nat);
        lemma_dec_val_dec_str(v as nat);
        assert(digit_char(s[0]));
        assert(s[0] != '-' && s[0] != '+');
        assert(int_digits(s) == s);
        assert(!int_neg(s));
    } else {
        let m = (-(v as int)) as nat;
        let d = dec_str(m);
        let s = seq!['-'] + d;
        lemma_dec_str_digits(m);
        lemma_dec_val_dec_str(m);
        assert(s[0] == '-');
        assert(s.subrange(1, s.len() as int) =~= d);
        assert(int_digits(s) == d);
        assert(int_neg(s));
        assert(all_digits(d));
        assert(dec_val(d) == m);
        assert(m <= 0x8000_0000);
        assert(parse_i32_spec(s) == Some((-(m as int)) as i32));
        assert((-(m as int)) as i32 == v);
    }
}

} // verus!

verus! {

/// The characters of a decimal rendering are digits: never markup,
/// whitespace or a control byte.
pub proof fn lemma_dec_str_wf(n: nat)
    ensures
        dec_str(n).len() > 0,
        all_digits(dec_str(n)),
        forall|i: int| 0 <= i < dec_str(n).len() ==> !ws_char(#[trigger] dec_str(n)[i])
            && dec_str(n)[i] != '<' && dec_str(n)[i] as u32 != 3,
{
    lemma_dec_str_digits(n);
    assert forall|i: int| 0 <= i < dec_str(n).len() implies !ws_char(#[trigger] dec_str(n)[i])
        && dec_str(n)[i] != '<' && dec_str(n)[i] as u32 != 3 by {
        assert(digit_char(dec_str(n)[i]));
    }
}

} // verus!
