use vstd::prelude::*;

verus! {

/// Whether `c` is one of the ten decimal digits.
pub open spec fn is_digit(c: char) -> bool {
    0x30 <= c as u32 <= 0x39
}

/// Whether `c` is a plus or a minus sign.
pub open spec fn is_sign(c: char) -> bool {
    c == '+' || c == '-'
}

/// Whether `c` is the lower-case letter `letter` or its upper-case form.
pub open spec fn is_letter(c: char, letter: char) -> bool {
    c == letter || c as u32 + 0x20 == letter as u32
}

/// Number of digits at the start of `s`.
pub open spec fn digit_run(s: Seq<char>) -> nat
    decreases s.len(),
{
    if s.len() > 0 && is_digit(s[0]) {
        1 + digit_run(s.skip(1))
    } else {
        0
    }
}

/// Whether `s` is `word`, in any mix of upper and lower case. `word` is
/// written in lower-case letters.
pub open spec fn spells(s: Seq<char>, word: Seq<char>) -> bool {
    s.len() == word.len() && forall|i: int| 0 <= i < s.len() ==> is_letter(s[i], word[i])
}

/// Whether `s` names an infinity or a value that is not a number.
pub open spec fn is_special(s: Seq<char>) -> bool {
    ||| spells(s, seq!['i', 'n', 'f'])
    ||| spells(s, seq!['i', 'n', 'f', 'i', 'n', 'i', 't', 'y'])
    ||| spells(s, seq!['n', 'a', 'n'])
}

/// Whether `s` is an exponent: the letter `e`, an optional sign, and one or
/// more digits.
pub open spec fn is_exponent(s: Seq<char>) -> bool {
    &&& s.len() > 0
    &&& is_letter(s[0], 'e')
    &&& {
        let t = s.skip(1);
        let d = if t.len() > 0 && is_sign(t[0]) {
            t.skip(1)
        } else {
            t
        };
        d.len() > 0 && digit_run(d) == d.len()
    }
}

/// Whether `s` is a decimal number: digits with at most one point among
/// them, at least one digit in all, and an optional exponent.
pub open spec fn is_number(s: Seq<char>) -> bool {
    let a = digit_run(s);
    let r = s.skip(a as int);
    let pointed = r.len() > 0 && r[0] == '.';
    let b = if pointed {
        digit_run(r.skip(1))
    } else {
        0
    };
    let e = if pointed {
        r.skip(1 + b as int)
    } else {
        r
    };
    a + b > 0 && (e.len() == 0 || is_exponent(e))
}

/// Whether `s` spells a number: an optional sign, then a decimal number or
/// one of the words `inf`, `infinity` and `nan`.
pub open spec fn is_literal(s: Seq<char>) -> bool {
    let body = if s.len() > 0 && is_sign(s[0]) {
        s.skip(1)
    } else {
        s
    };
    is_number(body) || is_special(body)
}

fn is_digit_char(c: char) -> (r: bool)
    ensures
        r == is_digit(c),
{
    let u: u32 = c as u32;
    0x30 <= u && u <= 0x39
}

fn is_letter_char(c: char, letter: char) -> (r: bool)
    ensures
        r == is_letter(c, letter),
{
    let u: u32 = c as u32;
    let l: u32 = letter as u32;
    c == letter || (u <= 0x10FFFF && u + 0x20 == l)
}

/// Number of digits of `s` from `from` on.
fn count_digits(s: &[char], from: usize) -> (k: usize)
    requires
        from <= s@.len(),
    ensures
        from + k <= s@.len(),
        k == digit_run(s@.skip(from as int)),
{
    let n = s.len();
    let mut i: usize = from;
    while i < n && is_digit_char(s[i])
        invariant
            from <= i <= n,
            n == s@.len(),
            digit_run(s@.skip(from as int)) == (i - from) + digit_run(s@.skip(i as int)),
        decreases n - i,
    {
        assert(s@.skip(i as int).skip(1) =~= s@.skip(i + 1));
        i += 1;
    }
    i - from
}

fn is_exponent_from(s: &[char], from: usize) -> (r: bool)
    requires
        from <= s@.len(),
    ensures
        r == is_exponent(s@.skip(from as int)),
{
    let n = s.len();
    if from == n || !is_letter_char(s[from], 'e') {
        return false;
    }
    let ghost t = s@.skip(from as int).skip(1);
    assert(t =~= s@.skip(from + 1));
    let mut pos: usize = from + 1;
    if pos < n && (s[pos] == '+' || s[pos] == '-') {
        assert(t.skip(1) =~= s@.skip(pos + 1));
        pos += 1;
    }
    let d = count_digits(s, pos);
    d > 0 && d == n - pos
}

fn is_number_from(s: &[char], from: usize) -> (r: bool)
    requires
        from <= s@.len(),
    ensures
        r == is_number(s@.skip(from as int)),
{
    let n = s.len();
    let ghost body = s@.skip(from as int);
    let a = count_digits(s, from);
    let mut pos: usize = from + a;
    let mut b: usize = 0;
    assert(body.skip(a as int) =~= s@.skip(pos as int));
    if pos < n && s[pos] == '.' {
        assert(s@.skip(pos as int).skip(1) =~= s@.skip(pos + 1));
        b = count_digits(s, pos + 1);
        assert(s@.skip(pos as int).skip(1 + b) =~= s@.skip(pos + 1 + b));
        pos = pos + 1 + b;
    }
    if a == 0 && b == 0 {
        return false;
    }
    if pos == n {
        return true;
    }
    is_exponent_from(s, pos)
}

fn is_special_from(s: &[char], from: usize) -> (r: bool)
    requires
        from <= s@.len(),
    ensures
        r == is_special(s@.skip(from as int)),
{
    let n = s.len();
    let ghost body = s@.skip(from as int);
    let ghost inf = seq!['i', 'n', 'f'];
    let ghost infinity = seq!['i', 'n', 'f', 'i', 'n', 'i', 't', 'y'];
    let ghost nan = seq!['n', 'a', 'n'];
    if n - from == 3 {
        let c0 = s[from];
        let c1 = s[from + 1];
        let c2 = s[from + 2];
        assert(body[0] == c0 && body[1] == c1 && body[2] == c2);
        let r_inf = is_letter_char(c0, 'i') && is_letter_char(c1, 'n') && is_letter_char(c2, 'f');
        let r_nan = is_letter_char(c0, 'n') && is_letter_char(c1, 'a') && is_letter_char(c2, 'n');
        proof {
            if spells(body, inf) {
                assert(is_letter(body[0], inf[0]) && is_letter(body[1], inf[1]) && is_letter(
                    body[2],
                    inf[2],
                ));
            }
            if spells(body, nan) {
                assert(is_letter(body[0], nan[0]) && is_letter(body[1], nan[1]) && is_letter(
                    body[2],
                    nan[2],
                ));
            }
        }
        r_inf || r_nan
    } else if n - from == 8 {
        let r = is_letter_char(s[from], 'i') && is_letter_char(s[from + 1], 'n') && is_letter_char(
            s[from + 2],
            'f',
        ) && is_letter_char(s[from + 3], 'i') && is_letter_char(s[from + 4], 'n')
            && is_letter_char(s[from + 5], 'i') && is_letter_char(s[from + 6], 't')
            && is_letter_char(s[from + 7], 'y');
        proof {
            assert(forall|i: int| 0 <= i < 8 ==> body[i] == s@[from + i]);
            if spells(body, infinity) {
                assert(is_letter(body[0], infinity[0]));
                assert(is_letter(body[1], infinity[1]));
                assert(is_letter(body[2], infinity[2]));
                assert(is_letter(body[3], infinity[3]));
                assert(is_letter(body[4], infinity[4]));
                assert(is_letter(body[5], infinity[5]));
                assert(is_letter(body[6], infinity[6]));
                assert(is_letter(body[7], infinity[7]));
            }
        }
        r
    } else {
        false
    }
}

/// Whether `s` spells a number.
pub fn is_float_literal(s: &[char]) -> (r: bool)
    ensures
        r == is_literal(s@),
{
    let n = s.len();
    let from: usize = if n > 0 && (s[0] == '+' || s[0] == '-') {
        1
    } else {
        0
    };
    assert(s@.skip(0) =~= s@);
    is_number_from(s, from) || is_special_from(s, from)
}

} // verus!
