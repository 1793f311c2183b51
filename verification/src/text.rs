//! Small verified string utilities: equality, ASCII case folding, and
//! decimal rendering of integers.

use vstd::prelude::*;

verus! {

use vstd::utf8::encode_utf8_decode_utf8;
use vstd::string::StrSliceExecFns;
use vstd::string::StringExecFns;

/// ASCII case folding of one character: `A`..`Z` map to `a`..`z`, every
/// other character stays as it is.
pub open spec fn lower_char(c: char) -> char {
    if 'A' <= c && c <= 'Z' {
        ((c as u8) + 32) as char
    } else {
        c
    }
}

/// ASCII case folding of a character sequence, pointwise.
pub open spec fn lower(s: Seq<char>) -> Seq<char> {
    Seq::new(s.len(), |i: int| lower_char(s[i]))
}

/// Exact string equality, decided byte by byte.
pub fn str_eq(a: &str, b: &str) -> (r: bool)
    ensures
        r == (a@ == b@),
{
    proof {
        encode_utf8_decode_utf8(a@);
        encode_utf8_decode_utf8(b@);
    }
    let ab = a.as_bytes();
    let bb = b.as_bytes();
    if ab.len() != bb.len() {
        return false;
    }
    let n = ab.len();
    let mut i: usize = 0;
    while i < n
        invariant
            n == ab@.len() == bb@.len(),
            i <= n,
            a@ == b@ ==> ab@ == bb@,
            ab@ == bb@ ==> a@ == b@,
            forall|j: int| 0 <= j < i ==> ab@[j] == bb@[j],
        decreases n - i,
    {
        if ab[i] != bb[i] {
            proof {
                assert(ab@ != bb@);
            }
            return false;
        }
        i += 1;
    }
    proof {
        assert(ab@ =~= bb@);
    }
    true
}

/// Case-insensitive (ASCII) string equality.
pub fn str_eq_ignore_case(a: &str, b: &str) -> (r: bool)
    ensures
        r == (lower(a@) == lower(b@)),
{
    let an = a.unicode_len();
    let bn = b.unicode_len();
    if an != bn {
        proof {
            assert(lower(a@).len() != lower(b@).len());
        }
        return false;
    }
    let mut i: usize = 0;
    while i < an
        invariant
            an == a@.len() && an == b@.len(),
            i <= an,
            forall|j: int| 0 <= j < i ==> lower_char(a@[j]) == lower_char(b@[j]),
        decreases an - i,
    {
        let ca = lower_char_exec(a.get_char(i));
        let cb = lower_char_exec(b.get_char(i));
        if ca != cb {
            proof {
                assert(lower(a@)[i as int] != lower(b@)[i as int]);
            }
            return false;
        }
        i += 1;
    }
    proof {
        assert(lower(a@) =~= lower(b@));
    }
    true
}

/// Executable ASCII case folding of one character.
pub fn lower_char_exec(c: char) -> (r: char)
    ensures
        r == lower_char(c),
{
    if c >= 'A' && c <= 'Z' {
        (c as u8 + 32) as char
    } else {
        c
    }
}

/// Whether a string of the configuration matches `name` up to ASCII case.
pub open spec fn contains_ignore_case(set: Seq<Seq<char>>, name: Seq<char>) -> bool {
    exists|i: int| 0 <= i < set.len() && lower(set[i]) == lower(name)
}

/// Decides `contains_ignore_case` over a vector of strings.
pub fn vec_contains_ignore_case(set: &Vec<String>, name: &str) -> (r: bool)
    ensures
        r == contains_ignore_case(set@.map_values(|s: String| s@), name@),
{
    let ghost views = set@.map_values(|s: String| s@);
    let mut i: usize = 0;
    while i < set.len()
        invariant
            i <= set@.len(),
            views == set@.map_values(|s: String| s@),
            forall|j: int| 0 <= j < i ==> lower(views[j]) != lower(name@),
        decreases set@.len() - i,
    {
        if str_eq_ignore_case(set[i].as_str(), name) {
            proof {
                assert(0 <= i < views.len() && lower(views[i as int]) == lower(name@));
            }
            return true;
        }
        i += 1;
    }
    false
}

/// Exact membership of `name` in a vector of strings.
pub fn vec_contains(set: &Vec<String>, name: &str) -> (r: bool)
    ensures
        r == set@.map_values(|s: String| s@).contains(name@),
{
    let ghost views = set@.map_values(|s: String| s@);
    let mut i: usize = 0;
    while i < set.len()
        invariant
            i <= set@.len(),
            views == set@.map_values(|s: String| s@),
            forall|j: int| 0 <= j < i ==> views[j] != name@,
        decreases set@.len() - i,
    {
        if str_eq(set[i].as_str(), name) {
            proof {
                assert(views[i as int] == name@);
            }
            return true;
        }
        i += 1;
    }
    proof {
        assert(forall|j: int| 0 <= j < views.len() ==> views[j] != name@);
    }
    false
}

/// The character for one decimal digit.
pub open spec fn digit_char(d: int) -> char {
    ((48 + d) as u8) as char
}

/// The decimal digit string of a natural number, most significant first.
pub open spec fn dec_str(n: nat) -> Seq<char>
    decreases n,
{
    if n < 10 {
        seq![digit_char(n as int)]
    } else {
        dec_str(n / 10) + seq![digit_char((n % 10) as int)]
    }
}

/// The decimal string of an integer, with a leading minus sign if negative.
pub open spec fn int_dec_str(n: int) -> Seq<char> {
    if n >= 0 {
        dec_str(n as nat)
    } else {
        seq!['-'] + dec_str((-n) as nat)
    }
}

/// A one-character string for the decimal digit `d`.
pub fn digit_str(d: u64) -> (r: &'static str)
    requires
        d < 10,
    ensures
        r@ =~= seq![digit_char(d as int)],
{
    proof {
        reveal_strlit("0");
        reveal_strlit("1");
        reveal_strlit("2");
        reveal_strlit("3");
        reveal_strlit("4");
        reveal_strlit("5");
        reveal_strlit("6");
        reveal_strlit("7");
        reveal_strlit("8");
        reveal_strlit("9");
    }
    match d {
        0 => "0",
        1 => "1",
        2 => "2",
        3 => "3",
        4 => "4",
        5 => "5",
        6 => "6",
        7 => "7",
        8 => "8",
        _ => "9",
    }
}

/// Renders `n` in decimal.
pub fn u64_to_string(n: u64) -> (r: String)
    ensures
        r@ == dec_str(n as nat),
    decreases n,
{
    if n < 10 {
        let mut s = String::new();
        s.append(digit_str(n));
        proof {
            assert(s@ =~= dec_str(n as nat));
        }
        s
    } else {
        let mut s = u64_to_string(n / 10);
        s.append(digit_str(n % 10));
        proof {
            assert(s@ =~= dec_str(n as nat));
        }
        s
    }
}

/// Renders `n` in decimal, with a minus sign if negative.
pub fn i64_to_string(n: i64) -> (r: String)
    ensures
        r@ == int_dec_str(n as int),
{
    if n >= 0 {
        let r = u64_to_string(n as u64);
        r
    } else {
        let m: u64 = ((-(n as i128)) as u64);
        let mut s = String::new();
        proof {
            reveal_strlit("-");
        }
        s.append("-");
        let digits = u64_to_string(m);
        s.append(digits.as_str());
        proof {
            assert(s@ =~= int_dec_str(n as int));
        }
        s
    }
}

/// Index of the first `/` in `s`, or `-1` where there is none.
pub open spec fn find_slash(s: Seq<char>) -> int
    decreases s.len(),
{
    if s.len() == 0 {
        -1
    } else if s[0] == '/' {
        0
    } else {
        let r = find_slash(s.drop_first());
        if r == -1 {
            -1
        } else {
            r + 1
        }
    }
}

/// `find_slash` finds the first slash, or reports that none exists.
pub proof fn lemma_find_slash(s: Seq<char>)
    ensures
        -1 <= find_slash(s) < s.len(),
        find_slash(s) >= 0 ==> s[find_slash(s)] == '/' && forall|j: int|
            0 <= j < find_slash(s) ==> s[j] != '/',
        find_slash(s) == -1 ==> forall|j: int| 0 <= j < s.len() ==> s[j] != '/',
    decreases s.len(),
{
    if s.len() > 0 && s[0] != '/' {
        lemma_find_slash(s.drop_first());
        let t = s.drop_first();
        assert(forall|j: int| 0 <= j < t.len() ==> t[j] == s[j + 1]);
        if find_slash(s) >= 0 {
            assert forall|j: int| 0 <= j < find_slash(s) implies s[j] != '/' by {
                if j > 0 {
                    assert(t[j - 1] != '/');
                }
            }
        } else {
            assert forall|j: int| 0 <= j < s.len() implies s[j] != '/' by {
                if j > 0 {
                    assert(t[j - 1] != '/');
                }
            }
        }
    }
}

/// The `/`-separated segments of `s`, in order, empty segments included.
pub open spec fn split_slash(s: Seq<char>) -> Seq<Seq<char>>
    decreases s.len(),
    via split_slash_decreases
{
    let f = find_slash(s);
    if f == -1 {
        seq![s]
    } else {
        seq![s.take(f)] + split_slash(s.skip(f + 1))
    }
}

#[via_fn]
proof fn split_slash_decreases(s: Seq<char>) {
    lemma_find_slash(s);
}

/// Splits `s` at every `/`, as `split_slash` says.
pub fn segments(s: &str) -> (r: Vec<String>)
    ensures
        r@.map_values(|x: String| x@) == split_slash(s@),
    decreases s@.len(),
{
    proof {
        lemma_find_slash(s@);
    }
    let n = s.unicode_len();
    let mut i: usize = 0;
    let mut found: Option<usize> = None;
    while i < n && found.is_none()
        invariant
            n == s@.len(),
            i <= n,
            match found {
                Some(f) => f == i && i < n && s@[f as int] == '/' && forall|j: int|
                    0 <= j < f ==> s@[j] != '/',
                None => forall|j: int| 0 <= j < i ==> s@[j] != '/',
            },
        decreases n - i + (if found is None { 1int } else { 0int }),
    {
        if s.get_char(i) == '/' {
            found = Some(i);
        } else {
            i += 1;
        }
    }
    match found {
        None => {
            proof {
                assert(find_slash(s@) == -1) by {
                    if find_slash(s@) >= 0 {
                        assert(s@[find_slash(s@)] == '/');
                    }
                }
            }
            let mut out: Vec<String> = Vec::new();
            out.push(String::from_str(s));
            proof {
                assert(out@.map_values(|x: String| x@) =~= split_slash(s@));
            }
            out
        },
        Some(f) => {
            proof {
                assert(find_slash(s@) == f as int) by {
                    if find_slash(s@) == -1 {
                        assert(s@[f as int] != '/');
                    } else if find_slash(s@) < f as int {
                        assert(s@[find_slash(s@)] != '/');
                    } else if find_slash(s@) > f as int {
                        assert(s@[f as int] != '/');
                    }
                }
            }
            let head = s.substring_char(0, f);
            let tail = s.substring_char(f + 1, n);
            proof {
                assert(head@ == s@.take(f as int));
                assert(tail@ == s@.skip(f as int + 1));
            }
            let mut out: Vec<String> = Vec::new();
            out.push(String::from_str(head));
            let mut rest = segments(tail);
            out.append(&mut rest);
            proof {
                assert(out@.map_values(|x: String| x@) =~= split_slash(s@));
            }
            out
        },
    }
}

} // verus!
