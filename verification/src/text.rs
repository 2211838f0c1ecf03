//! Small verified helpers for working with strings: equality, decimal
//! rendering, character classes, and substring extraction.
use vstd::prelude::*;

verus! {

/// The decimal digit character for a value below ten.
pub open spec fn digit_char(d: nat) -> char {
    if d == 0 {
        '0'
    } else if d == 1 {
        '1'
    } else if d == 2 {
        '2'
    } else if d == 3 {
        '3'
    } else if d == 4 {
        '4'
    } else if d == 5 {
        '5'
    } else if d == 6 {
        '6'
    } else if d == 7 {
        '7'
    } else if d == 8 {
        '8'
    } else {
        '9'
    }
}

/// The usual base-ten rendering of a natural number, most significant
/// digit first, with no leading zeros (except for zero itself).
pub open spec fn dec_rep(n: nat) -> Seq<char>
    decreases n,
{
    if n < 10 {
        seq![digit_char(n)]
    } else {
        dec_rep(n / 10) + seq![digit_char(n % 10)]
    }
}

/// Whether `c` has the Unicode `White_Space` property, the class that
/// `str::trim` removes.
pub open spec fn is_space_char(c: char) -> bool {
    ||| (0x9 <= c as u32 && c as u32 <= 0xd)
    ||| c as u32 == 0x20
    ||| c as u32 == 0x85
    ||| c as u32 == 0xa0
    ||| c as u32 == 0x1680
    ||| (0x2000 <= c as u32 && c as u32 <= 0x200a)
    ||| c as u32 == 0x2028
    ||| c as u32 == 0x2029
    ||| c as u32 == 0x202f
    ||| c as u32 == 0x205f
    ||| c as u32 == 0x3000
}

/// Whether `c` is an ASCII decimal digit.
pub open spec fn is_digit_char(c: char) -> bool {
    0x30 <= c as u32 && c as u32 <= 0x39
}

pub fn is_space(c: char) -> (r: bool)
    ensures
        r == is_space_char(c),
{
    let u = c as u32;
    (0x9 <= u && u <= 0xd) || u == 0x20 || u == 0x85 || u == 0xa0 || u == 0x1680 || (0x2000 <= u
        && u <= 0x200a) || u == 0x2028 || u == 0x2029 || u == 0x202f || u == 0x205f || u == 0x3000
}

pub fn is_digit(c: char) -> (r: bool)
    ensures
        r == is_digit_char(c),
{
    let u = c as u32;
    0x30 <= u && u <= 0x39
}

/// Character-for-character equality of two string slices.
pub fn str_eq(a: &str, b: &str) -> (r: bool)
    ensures
        r == (a@ == b@),
{
    let x = a.to_owned();
    let y = b.to_owned();
    x == y
}

fn digit_str(d: usize) -> (r: &'static str)
    requires
        d < 10,
    ensures
        r@ == seq![digit_char(d as nat)],
{
    proof {
        reveal_strlit("0");
        reveal_strlit("1");
        reveal_strlit("2");
        reveal_strlit("3");
        reveal_strlit("4");
        reveal_strlit("5");
        reveal_strlit("6");
        reveal_strlit("7");
        reveal_strlit("8");
        reveal_strlit("9");
    }
    let r = match d {
        0 => "0",
        1 => "1",
        2 => "2",
        3 => "3",
        4 => "4",
        5 => "5",
        6 => "6",
        7 => "7",
        8 => "8",
        _ => "9",
    };
    proof {
        assert(r@ =~= seq![digit_char(d as nat)]);
    }
    r
}

/// Render `n` in base ten.
pub fn to_decimal(n: usize) -> (r: String)
    ensures
        r@ == dec_rep(n as nat),
    decreases n,
{
    if n < 10 {
        digit_str(n).to_owned()
    } else {
        let mut s = to_decimal(n / 10);
        s.append(digit_str(n % 10));
        proof {
            assert(s@ =~= dec_rep(n as nat));
        }
        s
    }
}

/// A pattern without its leading asterisks.
pub open spec fn strip_stars(p: Seq<char>) -> Seq<char>
    decreases p.len(),
{
    if p.len() > 0 && p[0] == '*' {
        strip_stars(p.drop_first())
    } else {
        p
    }
}

/// Whether `s` ends with `t`.
pub open spec fn ends_with_seq(s: Seq<char>, t: Seq<char>) -> bool {
    s.len() >= t.len() && s.skip(s.len() - t.len()) == t
}

/// Whether a file name matches a suffix pattern: the name ends with the
/// pattern minus its leading asterisks (so `*.rs` matches names ending
/// in `.rs`).
pub fn matches_suffix(name: &str, pattern: &str) -> (r: bool)
    ensures
        r == ends_with_seq(name@, strip_stars(pattern@)),
{
    let pn = pattern.unicode_len();
    let mut i: usize = 0;
    proof {
        assert(pattern@.skip(0) =~= pattern@);
    }
    while i < pn && pattern.get_char(i) == '*'
        invariant
            pn == pattern@.len(),
            i <= pn,
            strip_stars(pattern@) == strip_stars(pattern@.skip(i as int)),
        decreases pn - i,
    {
        proof {
            assert(pattern@.skip(i as int).drop_first() =~= pattern@.skip(i + 1));
        }
        i += 1;
    }
    let ghost suffix = pattern@.skip(i as int);
    proof {
        assert(strip_stars(pattern@) == suffix);
    }
    let t_len = pn - i;
    let nn = name.unicode_len();
    if nn < t_len {
        return false;
    }
    let offset = nn - t_len;
    let mut j: usize = 0;
    while j < t_len
        invariant
            pn == pattern@.len(),
            nn == name@.len(),
            i + t_len == pn,
            offset + t_len == nn,
            j <= t_len,
            suffix == pattern@.skip(i as int),
            strip_stars(pattern@) == suffix,
            forall|k: int| 0 <= k < j ==> name@[offset + k] == suffix[k],
        decreases t_len - j,
    {
        if name.get_char(offset + j) != pattern.get_char(i + j) {
            proof {
                assert(suffix[j as int] == pattern@[i + j]);
                assert(name@.skip(offset as int)[j as int] == name@[offset + j]);
            }
            return false;
        }
        proof {
            assert(suffix[j as int] == pattern@[i + j]);
        }
        j += 1;
    }
    proof {
        assert(name@.skip(offset as int) =~= suffix);
    }
    true
}

} // verus!
