//! Run lengths on a command line: `30m`, `1800s`, `2h`, `0.5h`.

use crate::text::same_text;
use vstd::prelude::*;
use vstd::string::StrSliceExecFns;
use vstd::string::StringExecFns;

verus! {

/// A run length: a decimal number and the seconds one unit of it stands for.
/// The number is kept as written; turning it into a machine number is a matter
/// of the caller's precision.
pub struct RunLength {
    pub number: String,
    pub seconds_per_unit: u64,
}

/// Whether a character outside ASCII is alphabetic, as `char::is_alphabetic`
/// says.
pub uninterp spec fn unicode_alphabetic(c: char) -> bool;

/// Calls `char::is_alphabetic`, which answers by the character alone. ASCII is
/// left out: [`is_letter`] decides it on its own.
#[verifier::external_body]
fn is_unicode_alphabetic(c: char) -> (r: bool)
    requires
        c as u32 >= 128,
    ensures
        r == unicode_alphabetic(c),
{
    c.is_alphabetic()
}

pub open spec fn letter(c: char) -> bool {
    if (c as u32) < 128 {
        ('a' <= c && c <= 'z') || ('A' <= c && c <= 'Z')
    } else {
        unicode_alphabetic(c)
    }
}

fn is_letter(c: char) -> (r: bool)
    ensures
        r == letter(c),
{
    if (c as u32) < 128 {
        ('a' <= c && c <= 'z') || ('A' <= c && c <= 'Z')
    } else {
        is_unicode_alphabetic(c)
    }
}

/// How many characters stand before the first letter.
pub open spec fn number_len(s: Seq<char>) -> nat
    decreases s.len(),
{
    if s.len() == 0 || letter(s[0]) {
        0
    } else {
        1 + number_len(s.skip(1))
    }
}

pub open spec fn digit(c: char) -> bool {
    '0' <= c && c <= '9'
}

pub open spec fn all_digits(s: Seq<char>) -> bool {
    forall|i: int| 0 <= i < s.len() ==> digit(#[trigger] s[i])
}

/// An unsigned decimal: digits with at most one point among them, and at least
/// one digit.
pub open spec fn unsigned_decimal(s: Seq<char>) -> bool {
    ||| s.len() > 0 && all_digits(s)
    ||| exists|p: int|
        0 <= p < s.len() && s.len() > 1 && s[p] == '.' && all_digits(s.take(p)) && all_digits(
            #[trigger] s.skip(p + 1),
        )
}

/// A decimal with an optional sign.
pub open spec fn decimal(s: Seq<char>) -> bool {
    if s.len() > 0 && (s[0] == '+' || s[0] == '-') {
        unsigned_decimal(s.skip(1))
    } else {
        unsigned_decimal(s)
    }
}

/// Seconds in one unit, where the unit is known.
pub open spec fn unit_seconds(unit: Seq<char>) -> Option<u64> {
    if unit == Seq::<char>::empty() || unit == "s"@ {
        Some(1)
    } else if unit == "m"@ {
        Some(60)
    } else if unit == "h"@ {
        Some(3600)
    } else {
        None
    }
}

pub open spec fn bad_number_message(s: Seq<char>) -> Seq<char> {
    "bad duration '"@ + s + "', expected e.g. 30m, 1800s, 2h, 0.5h"@
}

pub open spec fn unknown_unit_message(unit: Seq<char>) -> Seq<char> {
    "unknown duration unit '"@ + unit + "', expected s, m or h"@
}

proof fn lemma_number_len_bound(s: Seq<char>)
    ensures
        number_len(s) <= s.len(),
    decreases s.len(),
{
    if s.len() > 0 && !letter(s[0]) {
        lemma_number_len_bound(s.skip(1));
    }
}

/// The number part ends at the first letter.
proof fn lemma_number_len(s: Seq<char>, k: nat)
    requires
        k <= s.len(),
        forall|i: int| 0 <= i < k ==> !letter(#[trigger] s[i]),
        k < s.len() ==> letter(s[k as int]),
    ensures
        number_len(s) == k,
    decreases k,
{
    if k > 0 {
        let t = s.skip(1);
        assert forall|i: int| 0 <= i < k - 1 implies !letter(#[trigger] t[i]) by {
            assert(t[i] == s[i + 1]);
        }
        lemma_number_len(t, (k - 1) as nat);
    }
}

/// Index of the first letter of `s`, or its length.
fn find_letter(s: &str) -> (r: usize)
    ensures
        r == number_len(s@),
{
    let n: usize = s.unicode_len();
    let mut i: usize = 0;
    while i < n && !is_letter(s.get_char(i))
        invariant
            n == s@.len(),
            i <= n,
            forall|k: int| 0 <= k < i ==> !letter(#[trigger] s@[k]),
        decreases n - i,
    {
        i = i + 1;
    }
    proof {
        lemma_number_len(s@, i as nat);
    }
    i
}

/// End of the run of digits that starts at `from`.
fn skip_digits(s: &str, from: usize, n: usize) -> (r: usize)
    requires
        n == s@.len(),
        from <= n,
    ensures
        from <= r <= n,
        forall|k: int| from <= k < r ==> digit(#[trigger] s@[k]),
        r < n ==> !digit(s@[r as int]),
{
    let mut i: usize = from;
    while i < n && '0' <= s.get_char(i) && s.get_char(i) <= '9'
        invariant
            n == s@.len(),
            from <= i <= n,
            forall|k: int| from <= k < i ==> digit(#[trigger] s@[k]),
        decreases n - i,
    {
        i = i + 1;
    }
    i
}

/// Whether the text from `from` on is an unsigned decimal.
fn is_unsigned_decimal(s: &str, from: usize, n: usize) -> (r: bool)
    requires
        n == s@.len(),
        from <= n,
    ensures
        r == unsigned_decimal(s@.skip(from as int)),
{
    let whole_end: usize = skip_digits(s, from, n);
    let ghost t = s@.skip(from as int);
    let ghost w = whole_end - from;
    assert(forall|k: int| 0 <= k < w ==> t[k] == s@[k + from]);
    assert(forall|k: int| 0 <= k < w ==> digit(#[trigger] t[k]));
    if whole_end == n {
        proof {
            assert(all_digits(t));
            assert forall|p: int| 0 <= p < t.len() implies t[p] != '.' by {
                assert(digit(t[p]));
            }
        }
        return n > from;
    }
    assert(t[w] == s@[whole_end as int]);
    if s.get_char(whole_end) != '.' {
        proof {
            assert(!all_digits(t));
            assert forall|p: int|
                0 <= p < t.len() && t[p] == '.' && all_digits(t.take(p)) implies !all_digits(
                #[trigger] t.skip(p + 1),
            ) by {
                if p < w {
                    assert(digit(t[p]));
                } else if p > w {
                    assert(t.take(p)[w] == t[w]);
                }
            }
        }
        return false;
    }
    let fraction_end: usize = skip_digits(s, whole_end + 1, n);
    let r: bool = fraction_end == n && n - from > 1;
    proof {
        assert(!all_digits(t)) by {
            assert(!digit(t[w]));
        }
        assert(t.skip(w + 1).len() == n - whole_end - 1);
        assert forall|k: int| 0 <= k < n - whole_end - 1 implies #[trigger] t.skip(w + 1)[k]
            == s@[k + whole_end + 1] by {}
        if r {
            assert(all_digits(t.take(w)));
            assert forall|k: int| 0 <= k < t.skip(w + 1).len() implies digit(
                #[trigger] t.skip(w + 1)[k],
            ) by {
                assert(digit(s@[k + whole_end + 1]));
            }
            assert(all_digits(t.skip(w + 1)));
        } else {
            assert forall|p: int|
                0 <= p < t.len() && t.len() > 1 && t[p] == '.' && all_digits(
                    t.take(p),
                ) implies !all_digits(#[trigger] t.skip(p + 1)) by {
                if p < w {
                    assert(digit(t[p]));
                } else if p > w {
                    assert(t.take(p)[w] == t[w]);
                } else {
                    let k = fraction_end - whole_end - 1;
                    assert(t.skip(w + 1)[k] == s@[fraction_end as int]);
                }
            }
        }
    }
    r
}

fn is_decimal(s: &str) -> (r: bool)
    ensures
        r == decimal(s@),
{
    let n: usize = s.unicode_len();
    if n > 0 && (s.get_char(0) == '+' || s.get_char(0) == '-') {
        is_unsigned_decimal(s, 1, n)
    } else {
        assert(s@.skip(0) == s@);
        is_unsigned_decimal(s, 0, n)
    }
}

/// What a run length says: its number and the seconds of its unit, or why it
/// is none. A number that is none is reported before a unit that is unknown.
pub open spec fn parsed(s: Seq<char>) -> Result<(Seq<char>, u64), Seq<char>> {
    let number = s.take(number_len(s) as int);
    let unit = s.skip(number_len(s) as int);
    if !decimal(number) {
        Err(bad_number_message(s))
    } else {
        match unit_seconds(unit) {
            Some(seconds) => Ok((number, seconds)),
            None => Err(unknown_unit_message(unit)),
        }
    }
}

/// Splits `s` at its first letter into a number and a unit, and checks both.
pub fn parse_duration(s: &str) -> (r: Result<RunLength, String>)
    ensures
        match r {
            Ok(length) => parsed(s@) == Ok::<(Seq<char>, u64), Seq<char>>(
                (length.number@, length.seconds_per_unit),
            ),
            Err(message) => parsed(s@) == Err::<(Seq<char>, u64), Seq<char>>(message@),
        },
{
    let n: usize = s.unicode_len();
    let split_at: usize = find_letter(s);
    proof {
        lemma_number_len_bound(s@);
    }
    let number = s.substring_char(0, split_at);
    let unit = s.substring_char(split_at, n);
    assert(number@ == s@.take(split_at as int));
    assert(unit@ == s@.skip(split_at as int));
    if !is_decimal(number) {
        let message = String::from_str("bad duration '").concat(s).concat(
            "', expected e.g. 30m, 1800s, 2h, 0.5h",
        );
        return Err(message);
    }
    let seconds_per_unit: u64 = if unit.unicode_len() == 0 || same_text(unit, "s") {
        1
    } else if same_text(unit, "m") {
        60
    } else if same_text(unit, "h") {
        3600
    } else {
        let message = String::from_str("unknown duration unit '").concat(unit).concat(
            "', expected s, m or h",
        );
        proof {
            reveal_strlit("s");
            reveal_strlit("m");
            reveal_strlit("h");
        }
        return Err(message);
    };
    proof {
        reveal_strlit("s");
        reveal_strlit("m");
        reveal_strlit("h");
        if unit@.len() == 0 {
            assert(unit@ == Seq::<char>::empty());
        }
        assert("m"@[0] != "s"@[0]);
        assert("h"@[0] != "s"@[0]);
        assert("h"@[0] != "m"@[0]);
    }
    Ok(RunLength { number: String::from_str(number), seconds_per_unit })
}

} // verus!
