use vstd::prelude::*;
use vstd::string::StrSliceExecFns;

verus! {

/// The ASCII lower-case form of a character: `A`..=`Z` become `a`..=`z`,
/// every other character is unchanged.
pub open spec fn ascii_lower(c: char) -> char {
    if 'A' <= c && c <= 'Z' {
        ((c as u32) + 32) as char
    } else {
        c
    }
}

/// Whether two texts are equal once ASCII letters are folded to lower case.
pub open spec fn equal_ignoring_ascii_case(a: Seq<char>, b: Seq<char>) -> bool {
    a.len() == b.len() && forall|i: int| 0 <= i < a.len() ==> ascii_lower(a[i]) == ascii_lower(b[i])
}

/// Equality ignoring ASCII case is an equivalence: every text matches
/// itself, matching is symmetric, and two texts that match a third match
/// each other.
pub proof fn lemma_equal_ignoring_ascii_case(a: Seq<char>, b: Seq<char>, c: Seq<char>)
    ensures
        equal_ignoring_ascii_case(a, a),
        equal_ignoring_ascii_case(a, b) ==> equal_ignoring_ascii_case(b, a),
        equal_ignoring_ascii_case(a, b) && equal_ignoring_ascii_case(b, c)
            ==> equal_ignoring_ascii_case(a, c),
{
}

/// Whether two texts are equal, compared character by character.
pub(crate) fn str_equals(a: &str, b: &str) -> (r: bool)
    ensures
        r == (a@ == b@),
{
    let n = a.unicode_len();
    if n != b.unicode_len() {
        return false;
    }
    let mut i: usize = 0;
    while i < n
        invariant
            n == a@.len(),
            n == b@.len(),
            i <= n,
            forall|k: int| 0 <= k < i ==> a@[k] == b@[k],
        decreases n - i,
    {
        if a.get_char(i) != b.get_char(i) {
            return false;
        }
        i = i + 1;
    }
    proof {
        assert(a@ =~= b@);
    }
    true
}

/// The code of a character once an ASCII capital letter is made lower
/// case.
fn lower_code(c: char) -> (r: u32)
    ensures
        r == ascii_lower(c) as u32,
{
    let x = c as u32;
    if 65 <= x && x <= 90 {
        x + 32
    } else {
        x
    }
}

/// Whether two texts are equal once ASCII letters are folded to lower
/// case, compared character by character.
pub(crate) fn str_eq_ignore_ascii_case(a: &str, b: &str) -> (r: bool)
    ensures
        r == equal_ignoring_ascii_case(a@, b@),
{
    let n = a.unicode_len();
    if n != b.unicode_len() {
        return false;
    }
    let mut i: usize = 0;
    while i < n
        invariant
            n == a@.len(),
            n == b@.len(),
            i <= n,
            forall|k: int| 0 <= k < i ==> ascii_lower(a@[k]) == ascii_lower(b@[k]),
        decreases n - i,
    {
        let x = lower_code(a.get_char(i));
        let y = lower_code(b.get_char(i));
        if x != y {
            return false;
        }
        i = i + 1;
    }
    true
}

/// The text of one decimal digit.
pub open spec fn digit_text(d: nat) -> Seq<char> {
    if d == 0 {
        "0"@
    } else if d == 1 {
        "1"@
    } else if d == 2 {
        "2"@
    } else if d == 3 {
        "3"@
    } else if d == 4 {
        "4"@
    } else if d == 5 {
        "5"@
    } else if d == 6 {
        "6"@
    } else if d == 7 {
        "7"@
    } else if d == 8 {
        "8"@
    } else {
        "9"@
    }
}

/// The decimal text of a number, without leading zeros.
pub open spec fn decimal(n: nat) -> Seq<char>
    decreases n,
{
    if n < 10 {
        digit_text(n)
    } else {
        decimal(n / 10) + digit_text(n % 10)
    }
}

fn digit_str(d: u32) -> (r: &'static str)
    requires
        d < 10,
    ensures
        r@ == digit_text(d as nat),
{
    if d == 0 {
        "0"
    } else if d == 1 {
        "1"
    } else if d == 2 {
        "2"
    } else if d == 3 {
        "3"
    } else if d == 4 {
        "4"
    } else if d == 5 {
        "5"
    } else if d == 6 {
        "6"
    } else if d == 7 {
        "7"
    } else if d == 8 {
        "8"
    } else {
        "9"
    }
}

/// Appends the decimal text of `n`.
pub fn append_decimal(s: &mut String, n: u32)
    ensures
        final(s)@ == old(s)@ + decimal(n as nat),
    decreases n,
{
    if n >= 10 {
        append_decimal(s, n / 10);
    }
    s.append(digit_str(n % 10));
    proof {
        assert(old(s)@ + decimal((n / 10) as nat) + digit_text((n % 10) as nat) =~= old(s)@ + (
        decimal((n / 10) as nat) + digit_text((n % 10) as nat)));
    }
}

} // verus!
