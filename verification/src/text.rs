//! Verified text helpers: decimal rendering of indices, substring search,
//! and removal of a substring's occurrences.

use vstd::prelude::*;
use vstd::string::StrSliceExecFns;
use vstd::string::StringExecFns;

verus! {

/// The character for one decimal digit.
pub open spec fn dec_digit(d: nat) -> char {
    if d == 0 {
        '0'
    } else if d == 1 {
        '1'
    } else if d == 2 {
        '2'
    } else if d == 3 {
        '3'
    } else if d == 4 {
        '4'
    } else if d == 5 {
        '5'
    } else if d == 6 {
        '6'
    } else if d == 7 {
        '7'
    } else if d == 8 {
        '8'
    } else {
        '9'
    }
}

/// The canonical decimal text of a natural number, most significant digit first.
pub open spec fn dec_str(n: nat) -> Seq<char>
    decreases n,
{
    if n < 10 {
        seq![dec_digit(n)]
    } else {
        dec_str(n / 10).push(dec_digit(n % 10))
    }
}

/// One decimal digit as a fresh string.
fn digit_string(d: usize) -> (r: String)
    requires
        d < 10,
    ensures
        r@ == seq![dec_digit(d as nat)],
{
    let s: &str = match d {
        0 => "0",
        1 => "1",
        2 => "2",
        3 => "3",
        4 => "4",
        5 => "5",
        6 => "6",
        7 => "7",
        8 => "8",
        _ => "9",
    };
    proof {
        reveal_strlit("0");
        reveal_strlit("1");
        reveal_strlit("2");
        reveal_strlit("3");
        reveal_strlit("4");
        reveal_strlit("5");
        reveal_strlit("6");
        reveal_strlit("7");
        reveal_strlit("8");
        reveal_strlit("9");
    }
    String::from_str(s)
}

/// Renders `n` in decimal, matching [`dec_str`].
pub fn usize_to_string(n: usize) -> (r: String)
    ensures
        r@ == dec_str(n as nat),
    decreases n,
{
    if n < 10 {
        digit_string(n)
    } else {
        let mut head = usize_to_string(n / 10);
        let tail = digit_string(n % 10);
        head.append(tail.as_str());
        proof {
            assert(head@ == dec_str((n / 10) as nat) + seq![dec_digit((n % 10) as nat)]);
            assert(dec_str(n as nat) == dec_str((n as nat) / 10).push(dec_digit((n as nat) % 10)));
            assert(head@ =~= dec_str(n as nat));
        }
        head
    }
}

/// `sub` occurs in `s` starting at position `i`.
pub open spec fn match_at(s: Seq<char>, sub: Seq<char>, i: int) -> bool {
    0 <= i && i + sub.len() <= s.len() && s.subrange(i, i + sub.len()) == sub
}

/// `sub` occurs somewhere in `s`.
pub open spec fn contains_seq(s: Seq<char>, sub: Seq<char>) -> bool {
    exists|i: int| match_at(s, sub, i)
}

/// Whether `sub` occurs in `s` starting exactly at `i`.
fn matches_at(s: &str, sub: &str, i: usize) -> (r: bool)
    requires
        i + sub@.len() <= s@.len(),
    ensures
        r == match_at(s@, sub@, i as int),
{
    let sn = s.unicode_len();
    let n = sub.unicode_len();
    let mut j: usize = 0;
    while j < n
        invariant
            j <= n,
            n == sub@.len(),
            sn == s@.len(),
            i + n <= sn,
            forall|k: int| 0 <= k < j ==> s@[i + k] == sub@[k],
        decreases n - j,
    {
        if s.get_char(i + j) != sub.get_char(j) {
            proof {
                assert(s@.subrange(i as int, i + sub@.len())[j as int] != sub@[j as int]);
            }
            return false;
        }
        j = j + 1;
    }
    proof {
        assert(s@.subrange(i as int, i + sub@.len()) =~= sub@);
    }
    true
}

/// The first position at which `sub` occurs in `s`, if any.
pub fn find_first(s: &str, sub: &str) -> (r: Option<usize>)
    ensures
        match r {
            Some(i) => match_at(s@, sub@, i as int) && forall|k: int|
                0 <= k < i ==> !match_at(s@, sub@, k),
            None => !contains_seq(s@, sub@),
        },
{
    let n = s.unicode_len();
    let m = sub.unicode_len();
    if m > n {
        return None;
    }
    if m == 0 {
        proof {
            assert(s@.subrange(0, 0) =~= sub@);
        }
        return Some(0);
    }
    let mut i: usize = 0;
    while i <= n - m
        invariant
            1 <= m <= n,
            n == s@.len(),
            m == sub@.len(),
            i <= n - m + 1,
            forall|k: int| 0 <= k < i ==> !match_at(s@, sub@, k),
        decreases n - m + 1 - i,
    {
        if matches_at(s, sub, i) {
            return Some(i);
        }
        i = i + 1;
    }
    None
}

/// The first position at or after `i` at which `sub` occurs in `s`, or -1.
pub open spec fn first_match_from(s: Seq<char>, sub: Seq<char>, i: int) -> int
    decreases s.len() - i,
    when 0 <= i && 1 <= sub.len()
{
    if i + sub.len() > s.len() {
        -1
    } else if match_at(s, sub, i) {
        i
    } else {
        first_match_from(s, sub, i + 1)
    }
}

/// `s` with every occurrence of `sub` removed, scanning left to right and
/// resuming after each removed occurrence.
pub open spec fn remove_all(s: Seq<char>, sub: Seq<char>) -> Seq<char>
    decreases s.len(),
    when 1 <= sub.len()
    via remove_all_decreases
{
    let i = first_match_from(s, sub, 0);
    if i < 0 {
        s
    } else {
        s.subrange(0, i) + remove_all(s.subrange(i + sub.len(), s.len() as int), sub)
    }
}

#[via_fn]
proof fn remove_all_decreases(s: Seq<char>, sub: Seq<char>) {
    lemma_first_match_bounds(s, sub, 0);
}

/// What a non-negative result of `first_match_from` means.
pub proof fn lemma_first_match_bounds(s: Seq<char>, sub: Seq<char>, i: int)
    requires
        0 <= i,
        1 <= sub.len(),
    ensures
        first_match_from(s, sub, i) == -1 || (i <= first_match_from(s, sub, i)
            && match_at(s, sub, first_match_from(s, sub, i))),
    decreases s.len() - i,
{
    if i + sub.len() <= s.len() && !match_at(s, sub, i) {
        lemma_first_match_bounds(s, sub, i + 1);
    }
}

/// The first match at or after `j` is `i` exactly when `i` matches and no
/// earlier position from `j` on does.
pub proof fn lemma_first_match_found(s: Seq<char>, sub: Seq<char>, j: int, i: int)
    requires
        0 <= j <= i,
        1 <= sub.len(),
        match_at(s, sub, i),
        forall|k: int| j <= k < i ==> !match_at(s, sub, k),
    ensures
        first_match_from(s, sub, j) == i,
    decreases i - j,
{
    if j < i {
        lemma_first_match_found(s, sub, j + 1, i);
    }
}

/// When no position matches, `first_match_from` reports none.
pub proof fn lemma_first_match_none(s: Seq<char>, sub: Seq<char>, j: int)
    requires
        0 <= j,
        1 <= sub.len(),
        forall|k: int| j <= k ==> !match_at(s, sub, k),
    ensures
        first_match_from(s, sub, j) == -1,
    decreases s.len() - j,
{
    if j + sub.len() <= s.len() {
        lemma_first_match_none(s, sub, j + 1);
    }
}

/// `s` with every occurrence of `sub` removed, matching [`remove_all`].
pub fn remove_occurrences(s: &str, sub: &str) -> (r: String)
    requires
        1 <= sub@.len(),
    ensures
        r@ == remove_all(s@, sub@),
    decreases s@.len(),
{
    match find_first(s, sub) {
        None => {
            proof {
                lemma_first_match_none(s@, sub@, 0);
            }
            s.to_owned()
        }
        Some(i) => {
            proof {
                lemma_first_match_found(s@, sub@, 0, i as int);
            }
            let sn = s.unicode_len();
            let m = sub.unicode_len();
            let head = s.substring_char(0, i);
            let tail = s.substring_char(i + m, sn);
            let rest = remove_occurrences(tail, sub);
            let mut out = head.to_owned();
            out.append(rest.as_str());
            proof {
                assert(out@ =~= remove_all(s@, sub@));
            }
            out
        }
    }
}

/// Whether `sub` occurs anywhere in `s`.
pub fn str_contains(s: &str, sub: &str) -> (r: bool)
    ensures
        r == contains_seq(s@, sub@),
{
    match find_first(s, sub) {
        Some(i) => {
            proof {
                assert(match_at(s@, sub@, i as int));
            }
            true
        }
        None => false,
    }
}

} // verus!
