use vstd::prelude::*;
use vstd::string::*;
use crate::text::{opt_view, same_text};

verus! {

/// A year: four decimal digits that stand as a word of their own.
pub const YEAR_PATTERN: &'static str = r"\b(\d{4})\b";

/// A weight: a run of digits, a space and the unit `g`.
pub const WEIGHT_PATTERN: &'static str = r"(\d+) g";

/// A display size: a number with an optional fraction, then ` inches`.
pub const SIZE_PATTERN: &'static str = r"(\d+(\.\d+)?) inches";

/// A release: the word `Released`, a space and four digits.
pub const RELEASE_PATTERN: &'static str = r"Released (\d{4})";

/// The text of capture group `group` in the leftmost match of `pattern` in
/// `text`, as the regex crate finds it; `None` where nothing matches or the
/// group took no part in the match.
pub uninterp spec fn regex_capture(pattern: Seq<char>, text: Seq<char>, group: nat) -> Option<Seq<char>>;

/// Relies on `regex::Regex::new` and `regex::Regex::captures`: the text of
/// one capture group of the leftmost-first match. A pattern that does not
/// compile yields `None`.
#[verifier::external_body]
pub(crate) fn first_capture(pattern: &str, text: &str, group: usize) -> (r: Option<String>)
    ensures
        opt_view(r) == regex_capture(pattern@, text@, group as nat),
{
    match regex::Regex::new(pattern) {
        Ok(re) => re.captures(text).and_then(|c| c.get(group)).map(|m| m.as_str().to_string()),
        Err(_) => None,
    }
}

/// Empty text and the placeholder `-` carry no data.
pub open spec fn is_placeholder(s: Seq<char>) -> bool {
    s.len() == 0 || s == seq!['-']
}

pub open spec fn text_field(s: Seq<char>) -> Option<Seq<char>> {
    if is_placeholder(s) {
        None
    } else {
        Some(s)
    }
}

pub open spec fn sim_field(s: Seq<char>) -> Option<Seq<char>> {
    if s == seq!['N', 'o'] {
        None
    } else {
        text_field(s)
    }
}

pub open spec fn ascii_digit(c: char) -> bool {
    '0' <= c && c <= '9'
}

pub open spec fn digit_value(c: char) -> int {
    c as int - '0' as int
}

pub open spec fn all_digits(s: Seq<char>) -> bool {
    forall|i: int| 0 <= i < s.len() ==> ascii_digit(#[trigger] s[i])
}

/// The year that a captured four-digit token spells, if its digits are ASCII.
pub open spec fn year_of(c: Option<Seq<char>>) -> Option<i32> {
    match c {
        Some(t) => if t.len() == 4 && all_digits(t) {
            Some(
                (digit_value(t[0]) * 1000 + digit_value(t[1]) * 100 + digit_value(t[2]) * 10
                    + digit_value(t[3])) as i32,
            )
        } else {
            None
        },
        None => None,
    }
}

/// Index of the first `.`, or the length where there is none.
pub open spec fn first_dot(s: Seq<char>) -> int
    decreases s.len(),
{
    if s.len() == 0 || s[0] == '.' {
        0
    } else {
        1 + first_dot(s.drop_first())
    }
}

pub open spec fn strip_leading_zeros(s: Seq<char>) -> Seq<char>
    decreases s.len(),
{
    if s.len() > 1 && s[0] == '0' {
        strip_leading_zeros(s.drop_first())
    } else {
        s
    }
}

pub open spec fn strip_trailing_zeros(s: Seq<char>) -> Seq<char>
    decreases s.len(),
{
    if s.len() > 0 && s.last() == '0' {
        strip_trailing_zeros(s.drop_last())
    } else {
        s
    }
}

/// The digits before the point of a number written `d+` or `d+.d+`.
pub open spec fn whole_part(s: Seq<char>) -> Seq<char> {
    s.take(first_dot(s))
}

/// The digits after the point, empty where there is no point.
pub open spec fn fraction_part(s: Seq<char>) -> Seq<char> {
    if first_dot(s) < s.len() {
        s.skip(first_dot(s) + 1)
    } else {
        Seq::empty()
    }
}

pub open spec fn is_decimal(s: Seq<char>) -> bool {
    &&& whole_part(s).len() > 0
    &&& all_digits(whole_part(s))
    &&& all_digits(fraction_part(s))
    &&& first_dot(s) < s.len() ==> fraction_part(s).len() > 0
}

/// One text for each decimal value: no leading zero before the point but a
/// lone `0`, no trailing zero after it, and no point without a fraction.
/// Two decimals are equal in value exactly when their canonical texts are.
pub open spec fn canonical_decimal(s: Seq<char>) -> Seq<char> {
    let f = strip_trailing_zeros(fraction_part(s));
    strip_leading_zeros(whole_part(s)) + if f.len() == 0 {
        Seq::empty()
    } else {
        seq!['.'] + f
    }
}

/// The canonical text of a captured number, if it is a decimal in ASCII digits.
pub open spec fn decimal_of(c: Option<Seq<char>>) -> Option<Seq<char>> {
    match c {
        Some(t) => if is_decimal(t) {
            Some(canonical_decimal(t))
        } else {
            None
        },
        None => None,
    }
}

pub open spec fn year_field(s: Seq<char>) -> Option<i32> {
    year_of(regex_capture(YEAR_PATTERN@, s, 1))
}

pub open spec fn weight_field(s: Seq<char>) -> Option<Seq<char>> {
    decimal_of(regex_capture(WEIGHT_PATTERN@, s, 1))
}

pub open spec fn size_field(s: Seq<char>) -> Option<Seq<char>> {
    decimal_of(regex_capture(SIZE_PATTERN@, s, 1))
}

/// Index of the first comma, or the length where there is none.
pub open spec fn first_comma(s: Seq<char>) -> int
    decreases s.len(),
{
    if s.len() == 0 || s[0] == ',' {
        0
    } else {
        1 + first_comma(s.drop_first())
    }
}

/// The text before the first comma, if it is not empty.
pub open spec fn os_field(s: Seq<char>) -> Option<Seq<char>> {
    if first_comma(s) > 0 {
        Some(s.take(first_comma(s)))
    } else {
        None
    }
}

proof fn lemma_first_dot(s: Seq<char>, i: int)
    requires
        0 <= i <= s.len(),
        forall|j: int| 0 <= j < i ==> s[j] != '.',
        i == s.len() || s[i] == '.',
    ensures
        first_dot(s) == i,
    decreases i,
{
    if i > 0 {
        assert forall|j: int| 0 <= j < i - 1 implies s.drop_first()[j] != '.' by {
            assert(s[j + 1] != '.');
        }
        lemma_first_dot(s.drop_first(), i - 1);
    }
}

proof fn lemma_first_comma(s: Seq<char>, i: int)
    requires
        0 <= i <= s.len(),
        forall|j: int| 0 <= j < i ==> s[j] != ',',
        i == s.len() || s[i] == ',',
    ensures
        first_comma(s) == i,
    decreases i,
{
    if i > 0 {
        assert forall|j: int| 0 <= j < i - 1 implies s.drop_first()[j] != ',' by {
            assert(s[j + 1] != ',');
        }
        lemma_first_comma(s.drop_first(), i - 1);
    }
}

fn is_placeholder_text(s: &str) -> (r: bool)
    ensures
        r == is_placeholder(s@),
{
    proof {
        reveal_strlit("-");
    }
    let r = s.unicode_len() == 0 || same_text(s, "-");
    assert("-"@ =~= seq!['-']);
    r
}

/// A text field: absent where it is empty or the placeholder `-`, else the
/// text unchanged.
pub fn normalize_text(s: &str) -> (r: Option<String>)
    ensures
        opt_view(r) == text_field(s@),
{
    if is_placeholder_text(s) {
        None
    } else {
        Some(s.to_owned())
    }
}

/// The SIM field: as a text field, and the literal `No` is absent too.
pub fn normalize_sim_info(s: &str) -> (r: Option<String>)
    ensures
        opt_view(r) == sim_field(s@),
{
    proof {
        reveal_strlit("No");
    }
    let no = same_text(s, "No");
    assert("No"@ =~= seq!['N', 'o']);
    if no {
        None
    } else {
        normalize_text(s)
    }
}

fn digit_of(c: char) -> (r: Option<i32>)
    ensures
        match r {
            Some(d) => ascii_digit(c) && d == digit_value(c),
            None => !ascii_digit(c),
        },
{
    if '0' <= c && c <= '9' {
        Some((c as u32 - '0' as u32) as i32)
    } else {
        None
    }
}

/// The year spelled by a captured token: four ASCII digits, read in base ten.
pub fn year_from_capture(c: Option<String>) -> (r: Option<i32>)
    ensures
        r == year_of(opt_view(c)),
{
    match c {
        None => None,
        Some(t) => {
            let s = t.as_str();
            if s.unicode_len() != 4 {
                return None;
            }
            let d0 = digit_of(s.get_char(0));
            let d1 = digit_of(s.get_char(1));
            let d2 = digit_of(s.get_char(2));
            let d3 = digit_of(s.get_char(3));
            match (d0, d1, d2, d3) {
                (Some(a), Some(b), Some(e), Some(f)) => {
                    assert(all_digits(s@));
                    Some(a * 1000 + b * 100 + e * 10 + f)
                },
                _ => None,
            }
        },
    }
}

/// The canonical text of a captured number (`d+` or `d+.d+` in ASCII
/// digits); `None` for anything else.
pub fn decimal_from_capture(c: Option<String>) -> (r: Option<String>)
    ensures
        opt_view(r) == decimal_of(opt_view(c)),
{
    let t = match c {
        None => {
            return None;
        },
        Some(t) => t,
    };
    let s = t.as_str();
    let n = s.unicode_len();
    // find the point
    let mut k: usize = 0;
    while k < n && s.get_char(k) != '.'
        invariant
            n == s@.len(),
            k <= n,
            forall|j: int| 0 <= j < k ==> s@[j] != '.',
        decreases n - k,
    {
        k += 1;
    }
    proof {
        lemma_first_dot(s@, k as int);
    }
    let ghost whole = whole_part(s@);
    let ghost frac = fraction_part(s@);
    if k == 0 || (k < n && k + 1 == n) {
        return None;
    }
    // check the digits
    let mut i: usize = 0;
    while i < n
        invariant
            n == s@.len(),
            k <= n,
            i <= n,
            first_dot(s@) == k,
            opt_view(c) == Some(s@),
            forall|j: int| 0 <= j < i && j != k ==> ascii_digit(#[trigger] s@[j]),
        decreases n - i,
    {
        if i != k {
            let ch = s.get_char(i);
            if !('0' <= ch && ch <= '9') {
                proof {
                    if i < k {
                        assert(whole_part(s@)[i as int] == ch);
                        assert(!all_digits(whole_part(s@)));
                    } else {
                        assert(fraction_part(s@)[i - k - 1] == ch);
                        assert(!all_digits(fraction_part(s@)));
                    }
                }
                return None;
            }
        }
        i += 1;
    }
    assert(all_digits(whole));
    assert(all_digits(frac));
    // leading zeros of the whole part
    let mut a: usize = 0;
    while a + 1 < k && s.get_char(a) == '0'
        invariant
            n == s@.len(),
            a < k <= n,
            first_dot(s@) == k,
            whole == s@.take(k as int),
            strip_leading_zeros(whole) == strip_leading_zeros(s@.subrange(a as int, k as int)),
        decreases k - a,
    {
        proof {
            assert(s@.subrange(a as int, k as int).drop_first() =~= s@.subrange(
                a + 1,
                k as int,
            ));
        }
        a += 1;
    }
    assert(strip_leading_zeros(whole) == s@.subrange(a as int, k as int));
    // trailing zeros of the fraction
    let lo: usize = if k < n { k + 1 } else { n };
    let mut b: usize = n;
    assert(frac =~= s@.subrange(lo as int, n as int));
    while b > lo && s.get_char(b - 1) == '0'
        invariant
            n == s@.len(),
            lo <= b <= n,
            strip_trailing_zeros(frac) == strip_trailing_zeros(s@.subrange(lo as int, b as int)),
        decreases b,
    {
        proof {
            assert(s@.subrange(lo as int, b as int).drop_last() =~= s@.subrange(
                lo as int,
                b - 1,
            ));
        }
        b -= 1;
    }
    assert(strip_trailing_zeros(frac) == s@.subrange(lo as int, b as int));
    let mut out = s.substring_char(a, k).to_owned();
    if b > lo {
        proof {
            reveal_strlit(".");
        }
        out.append(".");
        out.append(s.substring_char(lo, b));
        assert(out@ =~= canonical_decimal(s@));
    } else {
        assert(out@ =~= canonical_decimal(s@));
    }
    Some(out)
}

/// The first year in a text: four digits that stand as a word of their own.
pub fn extract_year(s: &str) -> (r: Option<i32>)
    ensures
        r == year_field(s@),
{
    year_from_capture(first_capture(YEAR_PATTERN, s, 1))
}

/// The first weight in grams (`<digits> g`), as canonical decimal text.
pub fn extract_weight(s: &str) -> (r: Option<String>)
    ensures
        opt_view(r) == weight_field(s@),
{
    decimal_from_capture(first_capture(WEIGHT_PATTERN, s, 1))
}

/// The first display size (`<number> inches`), as canonical decimal text.
pub fn extract_display_size(s: &str) -> (r: Option<String>)
    ensures
        opt_view(r) == size_field(s@),
{
    decimal_from_capture(first_capture(SIZE_PATTERN, s, 1))
}

/// The platform: the text before the first comma (all of it where there is
/// no comma), absent where that text is empty. The placeholder `-` is kept.
pub fn extract_os(s: &str) -> (r: Option<String>)
    ensures
        opt_view(r) == os_field(s@),
{
    let n = s.unicode_len();
    let mut k: usize = 0;
    while k < n && s.get_char(k) != ','
        invariant
            n == s@.len(),
            k <= n,
            forall|j: int| 0 <= j < k ==> s@[j] != ',',
        decreases n - k,
    {
        k += 1;
    }
    proof {
        lemma_first_comma(s@, k as int);
    }
    if k == 0 {
        None
    } else {
        Some(s.substring_char(0, k).to_owned())
    }
}

} // verus!
