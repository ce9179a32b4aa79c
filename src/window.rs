//! Window handles given on the command line, in decimal or as `0x` hex.

use vstd::prelude::*;

verus! {

/// Value of digit `c` in base `radix` (10 or 16), if it is one.
pub open spec fn digit_value(c: char, radix: nat) -> Option<nat> {
    if '0' <= c && c <= '9' && (c as nat) - ('0' as nat) < radix {
        Some((c as nat - '0' as nat) as nat)
    } else if radix == 16 && 'a' <= c && c <= 'f' {
        Some((c as nat - 'a' as nat + 10) as nat)
    } else if radix == 16 && 'A' <= c && c <= 'F' {
        Some((c as nat - 'A' as nat + 10) as nat)
    } else {
        None
    }
}

/// Value of a non-empty string of digits in base `radix`.
pub open spec fn digits_value(s: Seq<char>, radix: nat) -> Option<nat>
    decreases s.len(),
{
    if s.len() == 0 {
        None
    } else if s.len() == 1 {
        digit_value(s[0], radix)
    } else {
        match (digits_value(s.drop_last(), radix), digit_value(s.last(), radix)) {
            (Some(v), Some(d)) => Some(v * radix + d),
            _ => None,
        }
    }
}

/// Value of an unsigned number: digits, optionally after one `+`.
pub open spec fn number_value(s: Seq<char>, radix: nat) -> Option<nat> {
    if s.len() > 0 && s[0] == '+' {
        digits_value(s.skip(1), radix)
    } else {
        digits_value(s, radix)
    }
}

/// Value of a window argument: hexadecimal after `0x`, decimal otherwise.
pub open spec fn window_value(s: Seq<char>) -> Option<nat> {
    if s.len() >= 2 && s[0] == '0' && s[1] == 'x' {
        number_value(s.skip(2), 16)
    } else {
        number_value(s, 10)
    }
}

/// Why a window argument was refused.
pub enum WindowError {
    /// No window was given.
    Missing,
    /// The argument is not a number that fits in 32 bits.
    Invalid,
}

proof fn lemma_digits_grow(s: Seq<char>, radix: nat, k: int)
    requires
        1 <= k <= s.len(),
        radix >= 1,
        digits_value(s, radix) is Some,
    ensures
        digits_value(s.take(k), radix) is Some,
        digits_value(s.take(k), radix)->Some_0 <= digits_value(s, radix)->Some_0,
    decreases s.len(),
{
    if k == s.len() {
        assert(s.take(k) == s);
    } else {
        let d = s.drop_last();
        assert(d.take(k) == s.take(k));
        lemma_digits_grow(d, radix, k);
        let v = digits_value(d, radix)->Some_0;
        assert(v <= v * radix) by (nonlinear_arith)
            requires
                radix >= 1,
        ;
    }
}

fn char_digit(c: char, radix: u64) -> (r: Option<u64>)
    requires
        radix == 10 || radix == 16,
    ensures
        r is Some <==> digit_value(c, radix as nat) is Some,
        r matches Some(d) ==> d == digit_value(c, radix as nat)->Some_0 && d < radix,
{
    if '0' <= c && c <= '9' && (c as u64) - ('0' as u64) < radix {
        Some((c as u64) - ('0' as u64))
    } else if radix == 16 && 'a' <= c && c <= 'f' {
        Some((c as u64) - ('a' as u64) + 10)
    } else if radix == 16 && 'A' <= c && c <= 'F' {
        Some((c as u64) - ('A' as u64) + 10)
    } else {
        None
    }
}

/// Parses chars `from..` of `s` as an unsigned number in base `radix`.
pub fn parse_number(s: &str, from: usize, radix: u64) -> (r: Option<u32>)
    requires
        from <= s@.len(),
        radix == 10 || radix == 16,
    ensures
        r is Some <==> (number_value(s@.skip(from as int), radix as nat) matches Some(v) && v
            <= u32::MAX),
        r matches Some(w) ==> w == number_value(s@.skip(from as int), radix as nat)->Some_0,
{
    let ghost t = s@.skip(from as int);
    let n = s.unicode_len();
    let mut start = from;
    if start < n && s.get_char(start) == '+' {
        start = start + 1;
    }
    let ghost u = s@.skip(start as int);
    assert(number_value(t, radix as nat) == digits_value(u, radix as nat)) by {
        if start > from {
            assert(t.skip(1) == u);
        } else {
            assert(t == u);
        }
    }
    if start == n {
        return None;
    }
    let mut acc: u64 = 0;
    let mut i = start;
    while i < n
        invariant
            n == s@.len(),
            start < n,
            u == s@.skip(start as int),
            t == s@.skip(from as int),
            number_value(t, radix as nat) == digits_value(u, radix as nat),
            start <= i <= n,
            radix == 10 || radix == 16,
            i > start ==> digits_value(u.take(i - start), radix as nat) == Some(acc as nat),
            i == start ==> acc == 0,
            acc <= u32::MAX,
        decreases n - i,
    {
        let c = s.get_char(i);
        let ghost p = u.take(i + 1 - start);
        assert(p.drop_last() == u.take(i - start));
        assert(p.last() == c);
        match char_digit(c, radix) {
            Some(d) => {
                let next = acc * radix + d;
                proof {
                    assert(digits_value(p, radix as nat) == Some(next as nat));
                }
                if next > 4294967295u64 {
                    proof {
                        if digits_value(u, radix as nat) is Some {
                            lemma_digits_grow(u, radix as nat, i + 1 - start);
                        }
                    }
                    return None;
                }
                acc = next;
            },
            None => {
                proof {
                    assert(digits_value(p, radix as nat) is None);
                    if digits_value(u, radix as nat) is Some {
                        lemma_digits_grow(u, radix as nat, i + 1 - start);
                    }
                }
                return None;
            },
        }
        i = i + 1;
    }
    assert(u.take(n - start) == u);
    Some(acc as u32)
}

/// Parses a window argument: hexadecimal after `0x`, decimal otherwise, with
/// one optional `+` before the digits.
pub fn parse_window(arg: &str) -> (r: Result<u32, WindowError>)
    ensures
        r is Ok <==> (window_value(arg@) matches Some(v) && v <= u32::MAX),
        r matches Ok(w) ==> w == window_value(arg@)->Some_0,
        r is Err ==> r matches Err(WindowError::Invalid),
{
    let n = arg.unicode_len();
    let hex = n >= 2 && arg.get_char(0) == '0' && arg.get_char(1) == 'x';
    let parsed = if hex {
        parse_number(arg, 2, 16)
    } else {
        assert(arg@.skip(0) == arg@);
        parse_number(arg, 0, 10)
    };
    match parsed {
        Some(w) => Ok(w),
        None => Err(WindowError::Invalid),
    }
}

/// The window argument, if one was given.
pub fn window_arg(arg: Option<&str>) -> (r: Result<u32, WindowError>)
    ensures
        arg is None ==> r matches Err(WindowError::Missing),
        arg matches Some(a) ==> (r is Ok <==> (window_value(a@) matches Some(v) && v <= u32::MAX)),
        arg matches Some(a) ==> (r matches Ok(w) ==> w == window_value(a@)->Some_0),
        arg is Some && r is Err ==> r matches Err(WindowError::Invalid),
{
    match arg {
        Some(a) => parse_window(a),
        None => Err(WindowError::Missing),
    }
}

} // verus!
