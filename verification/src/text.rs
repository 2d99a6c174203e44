//! Character-level helpers on file names and option strings: comparison with a
//! literal, ASCII case folding, splitting at alphabetic characters and the decimal
//! numbers that `str::parse` accepts for unsigned integers.
use vstd::prelude::*;

verus! {

/// Unicode's `Alphabetic` property of a character outside ASCII (a table of the
/// Unicode Character Database, named here rather than written out).
pub uninterp spec fn unicode_alphabetic(c: char) -> bool;

pub open spec fn is_ascii_char(c: char) -> bool {
    (c as u32) < 128
}

pub open spec fn is_ascii_letter(c: char) -> bool {
    ('a' <= c && c <= 'z') || ('A' <= c && c <= 'Z')
}

pub open spec fn is_ascii_digit(c: char) -> bool {
    '0' <= c && c <= '9'
}

/// Whether `char::is_alphabetic` holds of `c`: inside ASCII exactly the Latin letters.
pub open spec fn is_alphabetic(c: char) -> bool {
    if is_ascii_char(c) {
        is_ascii_letter(c)
    } else {
        unicode_alphabetic(c)
    }
}

/// Calls `char::is_alphabetic`. Trusted: Unicode's `Alphabetic` property holds,
/// among ASCII characters, of the letters `a..=z` and `A..=Z` and of nothing else;
/// outside ASCII the result is the named property `unicode_alphabetic` of `c`.
#[verifier::external_body]
pub(crate) fn char_is_alphabetic(c: char) -> (r: bool)
    ensures
        is_ascii_char(c) ==> (r == is_ascii_letter(c)),
        !is_ascii_char(c) ==> (r == unicode_alphabetic(c)),
{
    c.is_alphabetic()
}

/// Whether two strings hold the same characters.
pub fn str_equals(s: &str, t: &str) -> (r: bool)
    ensures
        r == (s@ == t@),
{
    let n = s.unicode_len();
    let m = t.unicode_len();
    if n != m {
        return false;
    }
    let mut i: usize = 0;
    while i < n
        invariant
            n == s@.len(),
            m == t@.len(),
            n == m,
            i <= n,
            forall|j: int| 0 <= j < i ==> s@[j] == t@[j],
        decreases n - i,
    {
        if s.get_char(i) != t.get_char(i) {
            return false;
        }
        i = i + 1;
    }
    assert(s@ =~= t@);
    true
}

/// ASCII lower-casing of one character, as `char::to_ascii_lowercase` does it.
pub open spec fn ascii_lower(c: char) -> char {
    if 'A' <= c && c <= 'Z' {
        ((c as u32) + 32) as char
    } else {
        c
    }
}

/// ASCII lower-casing of a string, as `str::to_ascii_lowercase` does it.
pub open spec fn ascii_lowercase(s: Seq<char>) -> Seq<char> {
    s.map_values(|c: char| ascii_lower(c))
}

pub fn char_to_ascii_lower(c: char) -> (r: char)
    ensures
        r == ascii_lower(c),
{
    if 'A' <= c && c <= 'Z' {
        let b: u8 = c as u8;
        (b + 32) as char
    } else {
        c
    }
}

/// Whether the ASCII lower-casing of `s` equals `t`.
pub fn lowercase_equals(s: &str, t: &str) -> (r: bool)
    ensures
        r == (ascii_lowercase(s@) == t@),
{
    let n = s.unicode_len();
    let m = t.unicode_len();
    if n != m {
        assert(ascii_lowercase(s@).len() == n);
        return false;
    }
    let mut i: usize = 0;
    while i < n
        invariant
            n == s@.len(),
            m == t@.len(),
            n == m,
            i <= n,
            forall|j: int| 0 <= j < i ==> ascii_lower(s@[j]) == t@[j],
        decreases n - i,
    {
        if char_to_ascii_lower(s.get_char(i)) != t.get_char(i) {
            assert(ascii_lowercase(s@)[i as int] != t@[i as int]);
            return false;
        }
        i = i + 1;
    }
    assert(ascii_lowercase(s@) =~= t@);
    true
}

/// The pieces that `str::split(char::is_alphabetic)` yields: the text between
/// consecutive alphabetic characters, empty pieces included.
pub open spec fn split_alphabetic(s: Seq<char>) -> Seq<Seq<char>>
    decreases s.len(),
{
    if s.len() == 0 {
        seq![Seq::<char>::empty()]
    } else {
        let pieces = split_alphabetic(s.drop_last());
        if is_alphabetic(s.last()) {
            pieces.push(Seq::<char>::empty())
        } else {
            pieces.update(pieces.len() - 1, pieces.last().push(s.last()))
        }
    }
}

pub proof fn lemma_split_nonempty(s: Seq<char>)
    ensures
        split_alphabetic(s).len() >= 1,
    decreases s.len(),
{
    if s.len() > 0 {
        lemma_split_nonempty(s.drop_last());
    }
}

/// Appending text without alphabetic characters extends the last piece.
pub proof fn lemma_split_append_plain(a: Seq<char>, b: Seq<char>)
    requires
        forall|i: int| 0 <= i < b.len() ==> !is_alphabetic(#[trigger] b[i]),
    ensures
        split_alphabetic(a + b) == split_alphabetic(a).update(
            split_alphabetic(a).len() - 1,
            split_alphabetic(a).last() + b,
        ),
    decreases b.len(),
{
    lemma_split_nonempty(a);
    let pa = split_alphabetic(a);
    if b.len() == 0 {
        assert(a + b =~= a);
        assert(pa.last() + b =~= pa.last());
        assert(pa.update(pa.len() - 1, pa.last()) =~= pa);
    } else {
        let b1 = b.drop_last();
        assert forall|i: int| 0 <= i < b1.len() implies !is_alphabetic(#[trigger] b1[i]) by {
            assert(b1[i] == b[i]);
        }
        lemma_split_append_plain(a, b1);
        assert((a + b).drop_last() =~= a + b1);
        assert((a + b).last() == b.last());
        assert(!is_alphabetic(b[b.len() - 1]));
        let p1 = split_alphabetic(a + b1);
        assert(p1.len() == pa.len());
        assert((pa.last() + b1).push(b.last()) =~= pa.last() + b);
        assert(p1.update(p1.len() - 1, p1.last().push(b.last())) =~= pa.update(
            pa.len() - 1,
            pa.last() + b,
        ));
    }
}

/// Splitting at every alphabetic character of `s`, in order.
pub fn split_at_alphabetic(s: &str) -> (pieces: Vec<Vec<char>>)
    ensures
        pieces@.map_values(|v: Vec<char>| v@) == split_alphabetic(s@),
{
    let n = s.unicode_len();
    let mut done: Vec<Vec<char>> = Vec::new();
    let mut current: Vec<char> = Vec::new();
    let mut i: usize = 0;
    assert(s@.subrange(0, 0) =~= Seq::<char>::empty());
    assert(done@.map_values(|v: Vec<char>| v@).push(current@) =~= seq![Seq::<char>::empty()]);
    while i < n
        invariant
            n == s@.len(),
            i <= n,
            done@.map_values(|v: Vec<char>| v@).push(current@) == split_alphabetic(
                s@.subrange(0, i as int),
            ),
        decreases n - i,
    {
        let c = s.get_char(i);
        let ghost prefix = s@.subrange(0, i as int);
        let ghost next = s@.subrange(0, i + 1);
        assert(next.drop_last() =~= prefix);
        assert(next.last() == c);
        let ghost before = done@.map_values(|v: Vec<char>| v@);
        let alpha = char_is_alphabetic(c);
        if alpha {
            let finished = current;
            done.push(finished);
            current = Vec::new();
            assert(done@.map_values(|v: Vec<char>| v@) =~= before.push(finished@));
            assert(done@.map_values(|v: Vec<char>| v@).push(current@) =~= before.push(
                finished@,
            ).push(Seq::<char>::empty()));
        } else {
            let ghost old_current = current@;
            current.push(c);
            assert(done@.map_values(|v: Vec<char>| v@).push(current@) =~= before.push(
                old_current,
            ).update(before.len() as int, old_current.push(c)));
        }
        i = i + 1;
    }
    assert(s@.subrange(0, n as int) =~= s@);
    let ghost before = done@.map_values(|v: Vec<char>| v@);
    let last = current;
    done.push(last);
    assert(done@.map_values(|v: Vec<char>| v@) =~= before.push(last@));
    done
}

/// All characters are ASCII decimal digits.
pub open spec fn all_digits(d: Seq<char>) -> bool {
    forall|i: int| 0 <= i < d.len() ==> is_ascii_digit(#[trigger] d[i])
}

pub open spec fn digit_value(c: char) -> nat {
    ((c as u32) - ('0' as u32)) as nat
}

/// The number that a string of decimal digits denotes.
pub open spec fn digits_value(d: Seq<char>) -> nat
    decreases d.len(),
{
    if d.len() == 0 {
        0
    } else {
        digits_value(d.drop_last()) * 10 + digit_value(d.last())
    }
}

/// The digits that `str::parse` reads for an unsigned type: one leading `+` is skipped.
pub open spec fn unsigned_digits(s: Seq<char>) -> Seq<char> {
    if s.len() > 0 && s[0] == '+' {
        s.drop_first()
    } else {
        s
    }
}

/// What `str::parse` gives for an unsigned integer type whose largest value is `max`:
/// the value, when `s` is an optional `+` and then one or more ASCII digits denoting a
/// number no larger than `max`; nothing otherwise.
pub open spec fn parse_unsigned(s: Seq<char>, max: nat) -> Option<nat> {
    let d = unsigned_digits(s);
    if d.len() > 0 && all_digits(d) && digits_value(d) <= max {
        Some(digits_value(d))
    } else {
        None
    }
}

/// A longer string of digits never denotes a smaller number than its prefix.
pub proof fn lemma_digits_value_prefix(d: Seq<char>, i: int)
    requires
        all_digits(d),
        0 <= i <= d.len(),
    ensures
        digits_value(d.subrange(0, i)) <= digits_value(d),
    decreases d.len(),
{
    if i < d.len() {
        let d1 = d.drop_last();
        assert forall|j: int| 0 <= j < d1.len() implies is_ascii_digit(#[trigger] d1[j]) by {
            assert(d1[j] == d[j]);
        }
        assert(d1.subrange(0, i) =~= d.subrange(0, i));
        lemma_digits_value_prefix(d1, i);
    } else {
        assert(d.subrange(0, i) =~= d);
    }
}

/// Every character of a parsable unsigned number is a digit or `+`; none is alphabetic.
pub proof fn lemma_parsable_not_alphabetic(s: Seq<char>, max: nat)
    requires
        parse_unsigned(s, max) is Some,
    ensures
        forall|i: int| 0 <= i < s.len() ==> !is_alphabetic(#[trigger] s[i]),
{
    let d = unsigned_digits(s);
    assert forall|i: int| 0 <= i < s.len() implies !is_alphabetic(#[trigger] s[i]) by {
        if s.len() > 0 && s[0] == '+' {
            if i > 0 {
                assert(s[i] == d[i - 1]);
                assert(is_ascii_digit(d[i - 1]));
            }
        } else {
            assert(is_ascii_digit(d[i]));
        }
    }
}

/// `str::parse` for an unsigned integer type whose largest value is `max`.
pub fn parse_unsigned_chars(s: &Vec<char>, max: usize) -> (r: Option<usize>)
    ensures
        r is None <==> parse_unsigned(s@, max as nat) is None,
        r matches Some(v) ==> parse_unsigned(s@, max as nat) == Some(v as nat),
{
    let n = s.len();
    let start: usize = if n > 0 && s[0] == '+' { 1 } else { 0 };
    let ghost d = unsigned_digits(s@);
    assert(d =~= s@.subrange(start as int, n as int));
    if start == n {
        return None;
    }
    let mut value: usize = 0;
    let mut i: usize = start;
    assert(d.subrange(0, 0) =~= Seq::<char>::empty());
    while i < n
        invariant
            n == s@.len(),
            start <= i <= n,
            start < n,
            d == s@.subrange(start as int, n as int),
            d == unsigned_digits(s@),
            all_digits(d.subrange(0, i - start)),
            value as nat == digits_value(d.subrange(0, i - start)),
            value <= max,
        decreases n - i,
    {
        let c = s[i];
        let ghost k = i - start;
        assert(d[k] == c);
        if !('0' <= c && c <= '9') {
            assert(!is_ascii_digit(d[k]));
            assert(!all_digits(d));
            return None;
        }
        let digit: u32 = (c as u32) - ('0' as u32);
        let next: u128 = (value as u128) * 10 + (digit as u128);
        let ghost pre = d.subrange(0, k + 1);
        assert(pre.drop_last() =~= d.subrange(0, k));
        assert(pre.last() == c);
        assert(next == digits_value(pre));
        if next > max as u128 {
            proof {
                if all_digits(d) {
                    lemma_digits_value_prefix(d, k + 1);
                }
            }
            return None;
        }
        value = next as usize;
        assert forall|j: int| 0 <= j < pre.len() implies is_ascii_digit(#[trigger] pre[j]) by {
            if j < k {
                assert(pre[j] == d.subrange(0, k)[j]);
            }
        }
        i = i + 1;
    }
    assert(d.subrange(0, n - start) =~= d);
    Some(value)
}


/// The character of a decimal digit `0..=9`.
pub open spec fn digit_char(d: nat) -> char {
    ((d as u32) + ('0' as u32)) as char
}

/// The decimal digits of `n`, most significant first, without leading zeros.
pub open spec fn decimal_digits(n: nat) -> Seq<char>
    decreases n,
{
    if n < 10 {
        seq![digit_char(n)]
    } else {
        decimal_digits(n / 10).push(digit_char(n % 10))
    }
}

/// The one-character text of a decimal digit.
pub fn digit_text(d: usize) -> (s: &'static str)
    requires
        d < 10,
    ensures
        s@ == seq![digit_char(d as nat)],
{
    proof {
        reveal_strlit("0");
        reveal_strlit("1");
        reveal_strlit("2");
        reveal_strlit("3");
        reveal_strlit("4");
        reveal_strlit("5");
        reveal_strlit("6");
        reveal_strlit("7");
        reveal_strlit("8");
        reveal_strlit("9");
    }
    let s = match d {
        0 => "0",
        1 => "1",
        2 => "2",
        3 => "3",
        4 => "4",
        5 => "5",
        6 => "6",
        7 => "7",
        8 => "8",
        _ => "9",
    };
    assert(s@ =~= seq![digit_char(d as nat)]);
    s
}

/// `n` written in decimal, as `format!("{}", n)` writes it.
pub fn decimal_string(n: usize) -> (s: String)
    ensures
        s@ == decimal_digits(n as nat),
    decreases n,
{
    if n < 10 {
        let mut s = String::new();
        s.append(digit_text(n));
        assert(s@ =~= decimal_digits(n as nat));
        s
    } else {
        let mut s = decimal_string(n / 10);
        s.append(digit_text(n % 10));
        assert(s@ =~= decimal_digits(n as nat));
        s
    }
}

/// Reading back a number written in decimal gives the number.
pub proof fn lemma_decimal_round_trip(n: nat, max: nat)
    requires
        n <= max,
    ensures
        parse_unsigned(decimal_digits(n), max) == Some(n),
    decreases n,
{
    lemma_decimal_digits_value(n);
}

pub proof fn lemma_decimal_digits_value(n: nat)
    ensures
        decimal_digits(n).len() > 0,
        all_digits(decimal_digits(n)),
        digits_value(decimal_digits(n)) == n,
        unsigned_digits(decimal_digits(n)) == decimal_digits(n),
    decreases n,
{
    let d = decimal_digits(n);
    if n < 10 {
        assert(d.drop_last() =~= Seq::<char>::empty());
        assert(digits_value(Seq::<char>::empty()) == 0);
        assert(d.last() as u32 == (n as u32) + 48);
    } else {
        lemma_decimal_digits_value(n / 10);
        let prefix = decimal_digits(n / 10);
        assert(d.drop_last() =~= prefix);
        assert(d.last() as u32 == ((n % 10) as u32) + 48);
        assert(digit_value(d.last()) == n % 10);
        assert forall|i: int| 0 <= i < d.len() implies is_ascii_digit(#[trigger] d[i]) by {
            if i < prefix.len() {
                assert(d[i] == prefix[i]);
            }
        }
        assert(d[0] == prefix[0]);
    }
}

} // verus!
