//! Small text operations on character sequences, with their contracts.

use vstd::prelude::*;

verus! {

/// Whether `needle` occurs as a contiguous run of `haystack`.
pub open spec fn seq_contains_run(haystack: Seq<char>, needle: Seq<char>) -> bool {
    exists|i: int|
        0 <= i && i + needle.len() <= haystack.len() && #[trigger] haystack.subrange(
            i,
            i + needle.len(),
        ) == needle
}

/// Whether `needle` occurs in `haystack` as a run of characters (an empty
/// needle occurs everywhere).
pub(crate) fn str_contains(haystack: &str, needle: &str) -> (res: bool)
    ensures
        res == seq_contains_run(haystack@, needle@),
{
    let h = haystack.unicode_len();
    let n = needle.unicode_len();
    if n > h {
        proof {
            assert forall|i: int|
                0 <= i && i + needle@.len() <= haystack@.len() implies #[trigger] haystack@.subrange(
                i,
                i + needle@.len(),
            ) != needle@ by {}
        }
        return false;
    }
    if n == 0 {
        assert(haystack@.subrange(0, 0int + needle@.len()) =~= needle@);
        return true;
    }
    let mut i: usize = 0;
    while i <= h - n
        invariant
            h == haystack@.len(),
            n == needle@.len(),
            0 < n <= h,
            i <= h - n + 1,
            forall|j: int| 0 <= j < i ==> #[trigger] haystack@.subrange(j, j + n) != needle@,
        decreases h - n + 1 - i,
    {
        let window = haystack.substring_char(i, i + n);
        if str_equals(window, needle) {
            assert(haystack@.subrange(i as int, i + n) == needle@);
            return true;
        }
        i = i + 1;
    }
    proof {
        assert forall|j: int| 0 <= j && j + needle@.len() <= haystack@.len() implies #[trigger] haystack@.subrange(
            j,
            j + needle@.len(),
        ) != needle@ by {
            assert(j < i);
        }
    }
    false
}

/// The rest of `s` after `prefix`, when `s` starts with it.
pub(crate) fn str_strip_prefix<'a>(s: &'a str, prefix: &str) -> (res: Option<&'a str>)
    ensures
        match res {
            Some(rest) => s@ == prefix@ + rest@,
            None => !prefix@.is_prefix_of(s@),
        },
{
    let len = s.unicode_len();
    let plen = prefix.unicode_len();
    if plen > len {
        return None;
    }
    let head = s.substring_char(0, plen);
    if str_equals(head, prefix) {
        let rest = s.substring_char(plen, len);
        assert(s@ =~= prefix@ + rest@);
        Some(rest)
    } else {
        proof {
            if prefix@.is_prefix_of(s@) {
                assert(head@ =~= prefix@);
            }
        }
        None
    }
}

/// Whether two string slices hold the same characters.
pub(crate) fn str_equals(a: &str, b: &str) -> (res: bool)
    ensures
        res == (a@ == b@),
{
    String::from_str(a) == String::from_str(b)
}

/// The ASCII digit for `d` (`0..=9`).
pub open spec fn digit_char(d: nat) -> char {
    (48 + d) as char
}

/// The decimal representation of `n`, without leading zeros.
pub open spec fn decimal(n: nat) -> Seq<char>
    decreases n,
{
    if n < 10 {
        seq![digit_char(n)]
    } else {
        decimal(n / 10).push(digit_char(n % 10))
    }
}

fn digit_text(d: usize) -> (res: &'static str)
    requires
        d < 10,
    ensures
        res@ == seq![digit_char(d as nat)],
{
    proof {
        reveal_strlit("0");
        reveal_strlit("1");
        reveal_strlit("2");
        reveal_strlit("3");
        reveal_strlit("4");
        reveal_strlit("5");
        reveal_strlit("6");
        reveal_strlit("7");
        reveal_strlit("8");
        reveal_strlit("9");
    }
    match d {
        0 => "0",
        1 => "1",
        2 => "2",
        3 => "3",
        4 => "4",
        5 => "5",
        6 => "6",
        7 => "7",
        8 => "8",
        _ => "9",
    }
}

/// The decimal digits of `n`, as `Display` writes a `usize`.
pub(crate) fn usize_to_decimal(n: usize) -> (res: String)
    ensures
        res@ == decimal(n as nat),
    decreases n,
{
    if n < 10 {
        String::from_str(digit_text(n))
    } else {
        let mut res = usize_to_decimal(n / 10);
        res.append(digit_text(n % 10));
        res
    }
}

} // verus!
