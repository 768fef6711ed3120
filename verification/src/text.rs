//! Character-level text helpers with exact specifications.
//!
//! Strings are modelled by their view, the sequence of their characters.
//! Searching, trimming and number conversion are stated over that model.

use vstd::prelude::*;

verus! {

// ---------------------------------------------------------------------------
// Specifications
// ---------------------------------------------------------------------------

/// Unicode `White_Space`, the property that `char::is_whitespace` tests.
pub open spec fn is_ws(c: char) -> bool {
    let u = c as u32;
    ||| 0x09 <= u <= 0x0d
    ||| u == 0x20
    ||| u == 0x85
    ||| u == 0xa0
    ||| u == 0x1680
    ||| 0x2000 <= u <= 0x200a
    ||| u == 0x2028
    ||| u == 0x2029
    ||| u == 0x202f
    ||| u == 0x205f
    ||| u == 0x3000
}

/// `s` without its leading white space.
pub open spec fn trim_start(s: Seq<char>) -> Seq<char>
    decreases s.len(),
{
    if s.len() > 0 && is_ws(s[0]) {
        trim_start(s.drop_first())
    } else {
        s
    }
}

/// `s` without its trailing white space.
pub open spec fn trim_end(s: Seq<char>) -> Seq<char>
    decreases s.len(),
{
    if s.len() > 0 && is_ws(s.last()) {
        trim_end(s.drop_last())
    } else {
        s
    }
}

/// `s` without white space at either end (what `str::trim` gives).
pub open spec fn trim(s: Seq<char>) -> Seq<char> {
    trim_end(trim_start(s))
}

/// `s` without any leading or trailing occurrence of `c`
/// (what `str::trim_matches` with a character gives).
pub open spec fn strip_char_start(s: Seq<char>, c: char) -> Seq<char>
    decreases s.len(),
{
    if s.len() > 0 && s[0] == c {
        strip_char_start(s.drop_first(), c)
    } else {
        s
    }
}

pub open spec fn strip_char_end(s: Seq<char>, c: char) -> Seq<char>
    decreases s.len(),
{
    if s.len() > 0 && s.last() == c {
        strip_char_end(s.drop_last(), c)
    } else {
        s
    }
}

pub open spec fn trim_char(s: Seq<char>, c: char) -> Seq<char> {
    strip_char_end(strip_char_start(s, c), c)
}

/// `p` occurs in `s` at position `i`.
pub open spec fn matches_at(s: Seq<char>, p: Seq<char>, i: int) -> bool {
    &&& 0 <= i
    &&& i + p.len() <= s.len()
    &&& s.subrange(i, i + p.len()) == p
}

/// The first position at or after `i` where `p` occurs in `s`.
pub open spec fn find_from(s: Seq<char>, p: Seq<char>, i: int) -> Option<int>
    decreases s.len() - i,
{
    if i < 0 || i + p.len() > s.len() {
        None
    } else if matches_at(s, p, i) {
        Some(i)
    } else if i < s.len() {
        find_from(s, p, i + 1)
    } else {
        None
    }
}

/// The first position where `p` occurs in `s` (what `str::find` gives, counted in characters).
pub open spec fn find(s: Seq<char>, p: Seq<char>) -> Option<int> {
    find_from(s, p, 0)
}

/// `p` occurs somewhere in `s` (what `str::contains` gives).
pub open spec fn contains(s: Seq<char>, p: Seq<char>) -> bool {
    find(s, p) is Some
}

pub open spec fn starts_with(s: Seq<char>, p: Seq<char>) -> bool {
    p.len() <= s.len() && s.subrange(0, p.len() as int) == p
}

pub open spec fn ends_with(s: Seq<char>, p: Seq<char>) -> bool {
    p.len() <= s.len() && s.subrange(s.len() - p.len(), s.len() as int) == p
}

/// The number of characters before the first white space in `s`.
pub open spec fn word_len(s: Seq<char>) -> nat
    decreases s.len(),
{
    if s.len() == 0 || is_ws(s[0]) {
        0
    } else {
        1 + word_len(s.drop_first())
    }
}

/// The white-space separated words of `s`, in order (what `str::split_whitespace` yields).
pub open spec fn words(s: Seq<char>) -> Seq<Seq<char>>
    decreases s.len(),
{
    let t = trim_start(s);
    if t.len() == 0 {
        seq![]
    } else {
        let n = word_len(t);
        proof {
            lemma_trim_start_len(s);
            lemma_trim_start_head(s);
            lemma_word_len_bound(t);
        }
        seq![t.take(n as int)] + words(t.skip(n as int))
    }
}

/// The position of the first `c` in `s`.
pub open spec fn index_of(s: Seq<char>, c: char) -> Option<int>
    decreases s.len(),
{
    if s.len() == 0 {
        None
    } else if s[0] == c {
        Some(0)
    } else {
        match index_of(s.drop_first(), c) {
            Some(k) => Some(k + 1),
            None => None,
        }
    }
}

/// The pieces of `s` between the occurrences of `sep`, in order
/// (what `str::split` with a character yields; there is always at least one).
pub open spec fn split_on(s: Seq<char>, sep: char) -> Seq<Seq<char>>
    decreases s.len(),
{
    match index_of(s, sep) {
        Some(k) => {
            proof {
                lemma_index_of(s, sep);
            }
            seq![s.take(k)] + split_on(s.skip(k + 1), sep)
        },
        None => seq![s],
    }
}

/// `l` without one trailing carriage return.
pub open spec fn drop_cr(l: Seq<char>) -> Seq<char> {
    if l.len() > 0 && l.last() == '\r' {
        l.drop_last()
    } else {
        l
    }
}

/// The lines of `s` (what `str::lines` yields): split at each `\n`, a line
/// ended by `\r\n` loses the `\r`, and a final `\n` starts no further line.
pub open spec fn lines(s: Seq<char>) -> Seq<Seq<char>>
    decreases s.len(),
{
    if s.len() == 0 {
        seq![]
    } else {
        match index_of(s, '\n') {
            Some(k) => {
                proof {
                    lemma_index_of(s, '\n');
                }
                seq![drop_cr(s.take(k))] + lines(s.skip(k + 1))
            },
            None => seq![s],
        }
    }
}

pub open spec fn is_digit(c: char) -> bool {
    '0' <= c <= '9'
}

pub open spec fn all_digits(s: Seq<char>) -> bool {
    forall|i: int| 0 <= i < s.len() ==> is_digit(#[trigger] s[i])
}

pub open spec fn digit_value(c: char) -> nat {
    (c as int - '0' as int) as nat
}

/// The number that a string of decimal digits denotes.
pub open spec fn decimal_value(s: Seq<char>) -> nat
    decreases s.len(),
{
    if s.len() == 0 {
        0
    } else {
        decimal_value(s.drop_last()) * 10 + digit_value(s.last())
    }
}

/// What `str::parse` gives for an unsigned integer type whose largest value is `max`:
/// an optional `+`, then one or more decimal digits denoting a value no larger than `max`.
pub open spec fn parse_unsigned(s: Seq<char>, max: nat) -> Option<nat> {
    let digits = if s.len() > 0 && s[0] == '+' {
        s.drop_first()
    } else {
        s
    };
    unsigned_of_digits(digits, max)
}

/// The value of a non-empty digit string that is no larger than `max`.
pub open spec fn unsigned_of_digits(digits: Seq<char>, max: nat) -> Option<nat> {
    if digits.len() == 0 || !all_digits(digits) {
        None
    } else if decimal_value(digits) > max {
        None
    } else {
        Some(decimal_value(digits))
    }
}

/// The views of `v`, in order.
pub open spec fn strings_view(v: Seq<String>) -> Seq<Seq<char>> {
    v.map_values(|s: String| s@)
}

/// The number `s` denotes as a `u64`, or 0 when it denotes none
/// (`s.parse::<u64>().unwrap_or(0)`).
pub open spec fn number_or_zero(s: Seq<char>) -> nat {
    match parse_unsigned(s, u64::MAX as nat) {
        Some(n) => n,
        None => 0,
    }
}

/// What `str::parse` gives for a signed integer type whose values run from
/// `-neg_max` to `max`: an optional `+` or `-`, then one or more decimal digits.
pub open spec fn parse_signed(s: Seq<char>, neg_max: nat, max: nat) -> Option<int> {
    if s.len() > 0 && s[0] == '-' {
        match unsigned_of_digits(s.drop_first(), neg_max) {
            Some(n) => Some(-n),
            None => None,
        }
    } else {
        match parse_unsigned(s, max) {
            Some(n) => Some(n as int),
            None => None,
        }
    }
}

/// The decimal notation of `i`, with a leading `-` when it is negative.
pub open spec fn signed_decimal(i: int) -> Seq<char> {
    if i < 0 {
        seq!['-'] + decimal((-i) as nat)
    } else {
        decimal(i as nat)
    }
}

pub open spec fn digit_char(d: nat) -> char {
    ((d % 10) + 48) as char
}

/// The decimal notation of `n`, as `u64::to_string` writes it.
pub open spec fn decimal(n: nat) -> Seq<char>
    decreases n,
{
    if n < 10 {
        seq![digit_char(n)]
    } else {
        decimal(n / 10).push(digit_char(n % 10))
    }
}

// ---------------------------------------------------------------------------
// Lemmas
// ---------------------------------------------------------------------------

pub proof fn lemma_trim_len(s: Seq<char>)
    ensures
        trim(s).len() <= s.len(),
{
    lemma_trim_start_len(s);
    lemma_trim_end_len(trim_start(s));
}

pub proof fn lemma_trim_start_len(s: Seq<char>)
    ensures
        trim_start(s).len() <= s.len(),
    decreases s.len(),
{
    if s.len() > 0 && is_ws(s[0]) {
        lemma_trim_start_len(s.drop_first());
    }
}

proof fn lemma_trim_end_len(s: Seq<char>)
    ensures
        trim_end(s).len() <= s.len(),
    decreases s.len(),
{
    if s.len() > 0 && is_ws(s.last()) {
        lemma_trim_end_len(s.drop_last());
    }
}

/// What `trim_start` leaves does not begin with white space.
pub proof fn lemma_trim_start_head(s: Seq<char>)
    ensures
        trim_start(s).len() > 0 ==> !is_ws(trim_start(s)[0]),
    decreases s.len(),
{
    if s.len() > 0 && is_ws(s[0]) {
        lemma_trim_start_head(s.drop_first());
    }
}

/// `index_of` finds the first occurrence, and only an occurrence.
pub proof fn lemma_index_of(s: Seq<char>, c: char)
    ensures
        index_of(s, c) matches Some(k) ==> 0 <= k < s.len() && s[k] == c && forall|j: int|
            0 <= j < k ==> s[j] != c,
        index_of(s, c) is None ==> forall|j: int| 0 <= j < s.len() ==> s[j] != c,
    decreases s.len(),
{
    if s.len() > 0 && s[0] != c {
        lemma_index_of(s.drop_first(), c);
        assert forall|j: int| 1 <= j < s.len() implies s[j] == s.drop_first()[j - 1] by {}
    }
}

/// The first occurrence of `c` is at `k`, when `c` occurs at `k` and not before.
proof fn lemma_index_of_at(s: Seq<char>, c: char, k: int)
    requires
        0 <= k < s.len(),
        s[k] == c,
        forall|j: int| 0 <= j < k ==> s[j] != c,
    ensures
        index_of(s, c) == Some(k),
{
    lemma_index_of(s, c);
}

/// `c` does not occur in `s`.
proof fn lemma_index_of_none(s: Seq<char>, c: char)
    requires
        forall|j: int| 0 <= j < s.len() ==> s[j] != c,
    ensures
        index_of(s, c) is None,
{
    lemma_index_of(s, c);
}

/// Splitting at `c` a text made of `x`, `c` and `y` gives the pieces of `x`
/// and then those of `y`.
pub proof fn lemma_split_on_joined(x: Seq<char>, y: Seq<char>, c: char)
    ensures
        split_on(x + seq![c] + y, c) == split_on(x, c) + split_on(y, c),
    decreases x.len(),
{
    let s = x + seq![c] + y;
    lemma_index_of(x, c);
    match index_of(x, c) {
        None => {
            lemma_index_of_at(s, c, x.len() as int);
            assert(s.take(x.len() as int) =~= x);
            assert(s.skip(x.len() as int + 1) =~= y);
        },
        Some(k) => {
            lemma_index_of_at(s, c, k);
            lemma_split_on_joined(x.skip(k + 1), y, c);
            assert(s.take(k) =~= x.take(k));
            assert(s.skip(k + 1) =~= x.skip(k + 1) + seq![c] + y);
            assert(split_on(x, c) == seq![x.take(k)] + split_on(x.skip(k + 1), c));
            assert(seq![x.take(k)] + (split_on(x.skip(k + 1), c) + split_on(y, c)) =~= seq![x.take(k)]
                + split_on(x.skip(k + 1), c) + split_on(y, c));
        },
    }
}

/// A text without `c` is a single piece.
pub proof fn lemma_split_on_without(x: Seq<char>, c: char)
    requires
        forall|j: int| 0 <= j < x.len() ==> x[j] != c,
    ensures
        split_on(x, c) == seq![x],
{
    lemma_index_of_none(x, c);
}

/// A leading space does not change what trimming gives.
pub proof fn lemma_trim_after_space(x: Seq<char>)
    ensures
        trim(seq![' '] + x) == trim(x),
{
    assert((seq![' '] + x).drop_first() =~= x);
    assert(is_ws(' '));
}

/// A text that neither starts nor ends with white space is its own trim.
pub proof fn lemma_trim_of_trimmed(x: Seq<char>)
    requires
        x.len() > 0,
        !is_ws(x[0]),
        !is_ws(x.last()),
    ensures
        trim(x) == x,
{
}

/// The characters of a signed decimal are digits and a leading `-`; it is
/// not empty, and ends with a digit.
pub proof fn lemma_signed_decimal_chars(i: int)
    ensures
        signed_decimal(i).len() > 0,
        is_digit(signed_decimal(i).last()),
        is_digit(signed_decimal(i)[0]) || signed_decimal(i)[0] == '-',
        forall|j: int| 0 <= j < signed_decimal(i).len() ==> is_digit(#[trigger] signed_decimal(i)[j]) || (j == 0
            && signed_decimal(i)[j] == '-'),
{
    if i < 0 {
        lemma_decimal_chars((-i) as nat);
        let d = decimal((-i) as nat);
        assert forall|j: int| 0 <= j < signed_decimal(i).len() implies is_digit(#[trigger] signed_decimal(i)[j])
            || (j == 0 && signed_decimal(i)[j] == '-') by {
            if j > 0 {
                assert(signed_decimal(i)[j] == d[j - 1]);
            }
        }
        assert(signed_decimal(i).last() == d.last());
        assert(is_digit(d[d.len() - 1]));
    } else {
        lemma_decimal_chars(i as nat);
        let d = decimal(i as nat);
        assert(is_digit(d[d.len() - 1]));
        assert(is_digit(d[0]));
    }
}

/// Reading the signed decimal of an `i32` gives it back.
pub proof fn lemma_parse_signed_decimal(i: i32)
    ensures
        parse_signed(signed_decimal(i as int), 0x8000_0000, i32::MAX as nat) == Some(i as int),
{
    if i < 0 {
        let n = (-(i as int)) as nat;
        lemma_decimal_chars(n);
        lemma_decimal_value(n);
        let s = signed_decimal(i as int);
        assert(s.drop_first() =~= decimal(n));
        assert(all_digits(decimal(n)));
    } else {
        lemma_parse_decimal(i as nat, i32::MAX as nat);
        lemma_decimal_chars(i as nat);
        assert(is_digit(decimal(i as nat)[0]));
    }
}

pub proof fn lemma_word_len_bound(t: Seq<char>)
    requires
        t.len() > 0,
        !is_ws(t[0]),
    ensures
        1 <= word_len(t) <= t.len(),
{
    lemma_word_len_le(t.drop_first());
}

pub proof fn lemma_word_len_le(t: Seq<char>)
    ensures
        word_len(t) <= t.len(),
    decreases t.len(),
{
    if t.len() > 0 && !is_ws(t[0]) {
        lemma_word_len_le(t.drop_first());
    }
}

proof fn lemma_word_len_step(s: Seq<char>, lo: int, hi: int)
    requires
        0 <= lo < hi <= s.len(),
        !is_ws(s[lo]),
    ensures
        word_len(s.subrange(lo, hi)) == 1 + word_len(s.subrange(lo + 1, hi)),
{
    assert(s.subrange(lo, hi).drop_first() =~= s.subrange(lo + 1, hi));
}

proof fn lemma_trim_start_step(s: Seq<char>, lo: int, hi: int)
    requires
        0 <= lo < hi <= s.len(),
        is_ws(s[lo]),
    ensures
        trim_start(s.subrange(lo, hi)) == trim_start(s.subrange(lo + 1, hi)),
{
    assert(s.subrange(lo, hi).drop_first() =~= s.subrange(lo + 1, hi));
}

proof fn lemma_trim_end_step(s: Seq<char>, lo: int, hi: int)
    requires
        0 <= lo < hi <= s.len(),
        is_ws(s[hi - 1]),
    ensures
        trim_end(s.subrange(lo, hi)) == trim_end(s.subrange(lo, hi - 1)),
{
    assert(s.subrange(lo, hi).drop_last() =~= s.subrange(lo, hi - 1));
}

proof fn lemma_strip_start_step(s: Seq<char>, lo: int, hi: int, c: char)
    requires
        0 <= lo < hi <= s.len(),
        s[lo] == c,
    ensures
        strip_char_start(s.subrange(lo, hi), c) == strip_char_start(s.subrange(lo + 1, hi), c),
{
    assert(s.subrange(lo, hi).drop_first() =~= s.subrange(lo + 1, hi));
}

proof fn lemma_strip_end_step(s: Seq<char>, lo: int, hi: int, c: char)
    requires
        0 <= lo < hi <= s.len(),
        s[hi - 1] == c,
    ensures
        strip_char_end(s.subrange(lo, hi), c) == strip_char_end(s.subrange(lo, hi - 1), c),
{
    assert(s.subrange(lo, hi).drop_last() =~= s.subrange(lo, hi - 1));
}

/// Appending a digit multiplies the value by ten and adds the digit.
proof fn lemma_decimal_value_take(s: Seq<char>, i: int)
    requires
        0 <= i < s.len(),
    ensures
        decimal_value(s.take(i + 1)) == decimal_value(s.take(i)) * 10 + digit_value(s[i]),
{
    assert(s.take(i + 1).drop_last() =~= s.take(i));
}

/// The value of a digit string is at least the value of any of its prefixes.
proof fn lemma_decimal_value_prefix(s: Seq<char>, i: int)
    requires
        0 <= i <= s.len(),
    ensures
        decimal_value(s.take(i)) <= decimal_value(s),
    decreases s.len() - i,
{
    if i < s.len() {
        lemma_decimal_value_take(s, i);
        lemma_decimal_value_prefix(s, i + 1);
    } else {
        assert(s.take(i) =~= s);
    }
}

/// The decimal notation of `n` is a non-empty string of digits.
pub proof fn lemma_decimal_chars(n: nat)
    ensures
        forall|i: int| 0 <= i < decimal(n).len() ==> is_digit(#[trigger] decimal(n)[i]),
        1 <= decimal(n).len(),
        n < 10 ==> decimal(n).len() == 1,
    decreases n,
{
    if n >= 10 {
        lemma_decimal_chars(n / 10);
    }
}

/// Reading the decimal notation of `n` gives `n` back.
pub proof fn lemma_decimal_value(n: nat)
    ensures
        decimal_value(decimal(n)) == n,
    decreases n,
{
    let c = digit_char(n);
    assert(c as int == n % 10 + 48);
    assert(digit_value(c) == n % 10);
    if n >= 10 {
        lemma_decimal_value(n / 10);
        assert(decimal(n).drop_last() =~= decimal(n / 10));
        assert(decimal(n).last() == c);
        assert(decimal_value(decimal(n)) == decimal_value(decimal(n / 10)) * 10 + digit_value(c));
        assert((n / 10) * 10 + n % 10 == n);
    } else {
        assert(decimal(n).drop_last() =~= Seq::<char>::empty());
        assert(decimal(n).last() == c);
        assert(decimal_value(decimal(n)) == decimal_value(Seq::<char>::empty()) * 10 + digit_value(c));
    }
}

/// `str::parse` reads back the decimal notation of any value it can hold.
pub proof fn lemma_parse_decimal(n: nat, max: nat)
    requires
        n <= max,
    ensures
        parse_unsigned(decimal(n), max) == Some(n),
{
    lemma_decimal_chars(n);
    lemma_decimal_value(n);
    assert(is_digit(decimal(n)[0]));
    assert(all_digits(decimal(n)));
}

proof fn lemma_find_from_skip(s: Seq<char>, p: Seq<char>, i: int)
    requires
        0 <= i,
        i + p.len() <= s.len(),
        !matches_at(s, p, i),
    ensures
        find_from(s, p, i) == find_from(s, p, i + 1),
{
}

// ---------------------------------------------------------------------------
// Executable functions
// ---------------------------------------------------------------------------

/// Appends one character to a string.
#[verifier::external_body]
pub fn push_char(s: &mut String, c: char)
    ensures
        final(s)@ == old(s)@.push(c),
{
    s.push(c);
}

/// Appends a string slice to a string.
#[verifier::external_body]
pub fn push_str(s: &mut String, t: &str)
    ensures
        final(s)@ == old(s)@ + t@,
{
    s.push_str(t);
}

/// The characters of a string slice, in order.
pub fn chars_of(s: &str) -> (res: Vec<char>)
    ensures
        res@ == s@,
{
    let mut res: Vec<char> = Vec::new();
    for c in it: s.chars()
        invariant
            res@ == it.seq().take(it.index() as int),
            it.seq() == s@,
    {
        res.push(c);
    }
    res
}

/// The string made of `v[lo..hi]`.
pub fn string_of(v: &Vec<char>, lo: usize, hi: usize) -> (res: String)
    requires
        lo <= hi <= v.len(),
    ensures
        res@ == v@.subrange(lo as int, hi as int),
{
    let mut res = String::new();
    let mut i = lo;
    while i < hi
        invariant
            lo <= i <= hi <= v.len(),
            res@ == v@.subrange(lo as int, i as int),
        decreases hi - i,
    {
        push_char(&mut res, v[i]);
        assert(v@.subrange(lo as int, i + 1) =~= v@.subrange(lo as int, i as int).push(v@[i as int]));
        i += 1;
    }
    res
}

/// The bounds in `v` of each piece of `v[lo..hi]` between occurrences of `sep`.
pub fn split_bounds(v: &Vec<char>, lo: usize, hi: usize, sep: char) -> (res: Vec<(usize, usize)>)
    requires
        lo <= hi <= v.len(),
    ensures
        res.len() == split_on(v@.subrange(lo as int, hi as int), sep).len(),
        forall|k: int|
            0 <= k < res.len() ==> {
                &&& lo <= (#[trigger] res[k]).0 <= res[k].1 <= hi
                &&& v@.subrange(res[k].0 as int, res[k].1 as int) == split_on(
                    v@.subrange(lo as int, hi as int),
                    sep,
                )[k]
            },
{
    let mut res: Vec<(usize, usize)> = Vec::new();
    let ghost mut acc: Seq<Seq<char>> = seq![];
    let mut start = lo;
    let mut i = lo;
    while i < hi
        invariant
            lo <= start <= i <= hi <= v.len(),
            split_on(v@.subrange(lo as int, hi as int), sep) == acc + split_on(
                v@.subrange(start as int, hi as int),
                sep,
            ),
            forall|j: int| start <= j < i ==> v@[j] != sep,
            res.len() == acc.len(),
            forall|k: int|
                0 <= k < res.len() ==> {
                    &&& lo <= (#[trigger] res[k]).0 <= res[k].1 <= hi
                    &&& v@.subrange(res[k].0 as int, res[k].1 as int) == acc[k]
                },
        decreases hi - i,
    {
        if v[i] == sep {
            let ghost rest = v@.subrange(start as int, hi as int);
            proof {
                lemma_index_of_at(rest, sep, i - start);
                assert(rest.take(i - start) =~= v@.subrange(start as int, i as int));
                assert(rest.skip(i - start + 1) =~= v@.subrange(i + 1, hi as int));
                let old_acc = acc;
                acc = acc.push(v@.subrange(start as int, i as int));
                assert(acc + split_on(v@.subrange(i + 1, hi as int), sep) =~= old_acc + (seq![
                    v@.subrange(start as int, i as int),
                ] + split_on(v@.subrange(i + 1, hi as int), sep)));
            }
            res.push((start, i));
            start = i + 1;
        }
        i += 1;
    }
    proof {
        let rest = v@.subrange(start as int, hi as int);
        lemma_index_of_none(rest, sep);
        let old_acc = acc;
        acc = acc.push(rest);
        assert(acc =~= old_acc + seq![rest]);
    }
    res.push((start, hi));
    res
}

/// The bounds in `v` of each line of `v`, as `str::lines` splits it.
pub fn line_bounds(v: &Vec<char>) -> (res: Vec<(usize, usize)>)
    ensures
        res.len() == lines(v@).len(),
        forall|k: int|
            0 <= k < res.len() ==> {
                &&& (#[trigger] res[k]).0 <= res[k].1 <= v.len()
                &&& v@.subrange(res[k].0 as int, res[k].1 as int) == lines(v@)[k]
            },
{
    let n = v.len();
    let mut res: Vec<(usize, usize)> = Vec::new();
    let ghost mut acc: Seq<Seq<char>> = seq![];
    let mut start: usize = 0;
    let mut i: usize = 0;
    assert(v@.subrange(0, n as int) =~= v@);
    while i < n
        invariant
            start <= i <= n == v.len(),
            lines(v@) == acc + lines(v@.subrange(start as int, n as int)),
            forall|j: int| start <= j < i ==> v@[j] != '\n',
            res.len() == acc.len(),
            forall|k: int|
                0 <= k < res.len() ==> {
                    &&& (#[trigger] res[k]).0 <= res[k].1 <= n
                    &&& v@.subrange(res[k].0 as int, res[k].1 as int) == acc[k]
                },
        decreases n - i,
    {
        if v[i] == '\n' {
            let ghost rest = v@.subrange(start as int, n as int);
            let mut end = i;
            if end > start && v[end - 1] == '\r' {
                end = end - 1;
            }
            proof {
                lemma_index_of_at(rest, '\n', i - start);
                assert(rest.take(i - start) =~= v@.subrange(start as int, i as int));
                assert(rest.skip(i - start + 1) =~= v@.subrange(i + 1, n as int));
                assert(drop_cr(v@.subrange(start as int, i as int)) =~= v@.subrange(
                    start as int,
                    end as int,
                ));
                let old_acc = acc;
                acc = acc.push(v@.subrange(start as int, end as int));
                assert(acc + lines(v@.subrange(i + 1, n as int)) =~= old_acc + (seq![
                    v@.subrange(start as int, end as int),
                ] + lines(v@.subrange(i + 1, n as int))));
            }
            res.push((start, end));
            start = i + 1;
        }
        i += 1;
    }
    if start < n {
        proof {
            let rest = v@.subrange(start as int, n as int);
            lemma_index_of_none(rest, '\n');
            let old_acc = acc;
            acc = acc.push(rest);
            assert(acc =~= old_acc + seq![rest]);
        }
        res.push((start, n));
    } else {
        assert(acc + lines(v@.subrange(start as int, n as int)) =~= acc);
    }
    res
}

/// The bounds in `v` of each white-space separated word of `v`, in order.
pub fn word_bounds(v: &Vec<char>) -> (res: Vec<(usize, usize)>)
    ensures
        res.len() == words(v@).len(),
        forall|k: int|
            0 <= k < res.len() ==> {
                &&& (#[trigger] res[k]).0 <= res[k].1 <= v.len()
                &&& v@.subrange(res[k].0 as int, res[k].1 as int) == words(v@)[k]
            },
{
    let n = v.len();
    let mut res: Vec<(usize, usize)> = Vec::new();
    let ghost mut acc: Seq<Seq<char>> = seq![];
    let mut i: usize = 0;
    assert(v@.subrange(0, n as int) =~= v@);
    while i < n
        invariant
            i <= n == v.len(),
            words(v@) == acc + words(v@.subrange(i as int, n as int)),
            res.len() == acc.len(),
            forall|k: int|
                0 <= k < res.len() ==> {
                    &&& (#[trigger] res[k]).0 <= res[k].1 <= n
                    &&& v@.subrange(res[k].0 as int, res[k].1 as int) == acc[k]
                },
        decreases n - i,
    {
        let mut a = i;
        while a < n && is_whitespace(v[a])
            invariant
                i <= a <= n == v.len(),
                trim_start(v@.subrange(i as int, n as int)) == trim_start(
                    v@.subrange(a as int, n as int),
                ),
            decreases n - a,
        {
            proof {
                lemma_trim_start_step(v@, a as int, n as int);
            }
            a += 1;
        }
        let ghost rest = v@.subrange(i as int, n as int);
        if a == n {
            assert(v@.subrange(a as int, n as int).len() == 0);
            assert(words(rest) == Seq::<Seq<char>>::empty());
            assert(acc + words(rest) =~= acc);
            i = n;
            assert(words(v@.subrange(i as int, n as int)) == Seq::<Seq<char>>::empty());
            assert(acc + words(v@.subrange(i as int, n as int)) =~= acc);
        } else {
            assert(trim_start(v@.subrange(a as int, n as int)) == v@.subrange(a as int, n as int));
            let mut b = a;
            while b < n && !is_whitespace(v[b])
                invariant
                    a <= b <= n == v.len(),
                    word_len(v@.subrange(a as int, n as int)) == (b - a) + word_len(
                        v@.subrange(b as int, n as int),
                    ),
                decreases n - b,
            {
                proof {
                    lemma_word_len_step(v@, b as int, n as int);
                }
                b += 1;
            }
            assert(word_len(v@.subrange(b as int, n as int)) == 0);
            let ghost t = v@.subrange(a as int, n as int);
            assert(t.take(b - a) =~= v@.subrange(a as int, b as int));
            assert(t.skip(b - a) =~= v@.subrange(b as int, n as int));
            assert(words(rest) == seq![v@.subrange(a as int, b as int)] + words(
                v@.subrange(b as int, n as int),
            ));
            res.push((a, b));
            proof {
                let old_acc = acc;
                acc = acc.push(v@.subrange(a as int, b as int));
                assert(acc + words(v@.subrange(b as int, n as int)) =~= old_acc + (seq![
                    v@.subrange(a as int, b as int),
                ] + words(v@.subrange(b as int, n as int))));
            }
            i = b;
        }
    }
    assert(acc + words(v@.subrange(n as int, n as int)) =~= acc) by {
        assert(words(v@.subrange(n as int, n as int)) == Seq::<Seq<char>>::empty());
    }
    res
}

/// A copy of a string slice.
pub fn owned(s: &str) -> (res: String)
    ensures
        res@ == s@,
{
    let v = chars_of(s);
    let r = string_of(&v, 0, v.len());
    assert(v@.subrange(0, v@.len() as int) =~= v@);
    r
}

/// Tests `char::is_whitespace`.
pub fn is_whitespace(c: char) -> (res: bool)
    ensures
        res == is_ws(c),
{
    let u = c as u32;
    (0x09 <= u && u <= 0x0d) || u == 0x20 || u == 0x85 || u == 0xa0 || u == 0x1680 || (0x2000
        <= u && u <= 0x200a) || u == 0x2028 || u == 0x2029 || u == 0x202f || u == 0x205f || u
        == 0x3000
}

/// The bounds of `v[lo..hi]` with white space removed at both ends.
pub fn trim_bounds(v: &Vec<char>, lo: usize, hi: usize) -> (res: (usize, usize))
    requires
        lo <= hi <= v.len(),
    ensures
        lo <= res.0 <= res.1 <= hi,
        v@.subrange(res.0 as int, res.1 as int) == trim(v@.subrange(lo as int, hi as int)),
{
    let mut a = lo;
    while a < hi && is_whitespace(v[a])
        invariant
            lo <= a <= hi <= v.len(),
            trim_start(v@.subrange(lo as int, hi as int)) == trim_start(
                v@.subrange(a as int, hi as int),
            ),
        decreases hi - a,
    {
        proof {
            lemma_trim_start_step(v@, a as int, hi as int);
        }
        a += 1;
    }
    assert(trim_start(v@.subrange(a as int, hi as int)) == v@.subrange(a as int, hi as int));
    let mut b = hi;
    while b > a && is_whitespace(v[b - 1])
        invariant
            lo <= a <= b <= hi <= v.len(),
            trim_end(v@.subrange(a as int, hi as int)) == trim_end(v@.subrange(a as int, b as int)),
        decreases b - a,
    {
        proof {
            lemma_trim_end_step(v@, a as int, b as int);
        }
        b -= 1;
    }
    (a, b)
}

/// The bounds of `v[lo..hi]` with every leading and trailing `c` removed.
pub fn trim_char_bounds(v: &Vec<char>, lo: usize, hi: usize, c: char) -> (res: (usize, usize))
    requires
        lo <= hi <= v.len(),
    ensures
        lo <= res.0 <= res.1 <= hi,
        v@.subrange(res.0 as int, res.1 as int) == trim_char(v@.subrange(lo as int, hi as int), c),
{
    let mut a = lo;
    while a < hi && v[a] == c
        invariant
            lo <= a <= hi <= v.len(),
            strip_char_start(v@.subrange(lo as int, hi as int), c) == strip_char_start(
                v@.subrange(a as int, hi as int),
                c,
            ),
        decreases hi - a,
    {
        proof {
            lemma_strip_start_step(v@, a as int, hi as int, c);
        }
        a += 1;
    }
    let mut b = hi;
    while b > a && v[b - 1] == c
        invariant
            lo <= a <= b <= hi <= v.len(),
            strip_char_end(v@.subrange(a as int, hi as int), c) == strip_char_end(
                v@.subrange(a as int, b as int),
                c,
            ),
        decreases b - a,
    {
        proof {
            lemma_strip_end_step(v@, a as int, b as int, c);
        }
        b -= 1;
    }
    (a, b)
}

/// Whether `p` occurs in `v` at position `i`.
pub fn matches_at_exec(v: &Vec<char>, p: &Vec<char>, i: usize) -> (res: bool)
    ensures
        res == matches_at(v@, p@, i as int),
{
    if i > v.len() || p.len() > v.len() - i {
        return false;
    }
    let mut k: usize = 0;
    while k < p.len()
        invariant
            i + p.len() <= v.len(),
            0 <= k <= p.len(),
            forall|j: int| 0 <= j < k ==> v@[i + j] == p@[j],
        decreases p.len() - k,
    {
        if v[i + k] != p[k] {
            assert(v@.subrange(i as int, i + p.len())[k as int] != p@[k as int]);
            return false;
        }
        k += 1;
    }
    assert(v@.subrange(i as int, i + p.len()) =~= p@);
    true
}

/// The first position at or after `from` where `p` occurs in `v`.
pub fn find_exec(v: &Vec<char>, p: &Vec<char>, from: usize) -> (res: Option<usize>)
    ensures
        res matches Some(i) ==> find_from(v@, p@, from as int) == Some(i as int),
        res is None ==> find_from(v@, p@, from as int) is None,
        res matches Some(i) ==> matches_at(v@, p@, i as int) && from <= i,
{
    if p.len() > v.len() {
        return None;
    }
    let last = v.len() - p.len();
    let mut i = from;
    while i <= last
        invariant
            last == v.len() - p.len(),
            from <= i,
            find_from(v@, p@, from as int) == find_from(v@, p@, i as int),
        decreases last + 1 - i,
    {
        if matches_at_exec(v, p, i) {
            return Some(i);
        }
        proof {
            lemma_find_from_skip(v@, p@, i as int);
        }
        if i == last {
            assert(find_from(v@, p@, i + 1) is None);
            return None;
        }
        i += 1;
    }
    None
}

/// Whether the string `p` occurs in the string `s` (`str::contains`).
pub fn contains_exec(s: &str, p: &str) -> (res: bool)
    ensures
        res == contains(s@, p@),
{
    let v = chars_of(s);
    let q = chars_of(p);
    find_exec(&v, &q, 0).is_some()
}

/// Whether two strings hold the same characters.
pub fn str_eq(a: &str, b: &str) -> (res: bool)
    ensures
        res == (a@ == b@),
{
    let v = chars_of(a);
    let w = chars_of(b);
    if v.len() != w.len() {
        return false;
    }
    let mut i: usize = 0;
    while i < v.len()
        invariant
            v.len() == w.len(),
            v@ == a@,
            w@ == b@,
            0 <= i <= v.len(),
            forall|j: int| 0 <= j < i ==> v@[j] == w@[j],
        decreases v.len() - i,
    {
        if v[i] != w[i] {
            assert(v@[i as int] != w@[i as int]);
            return false;
        }
        i += 1;
    }
    assert(v@ =~= w@);
    true
}

/// Whether the characters `v[lo..hi]` spell exactly `p`.
pub fn range_eq(v: &Vec<char>, lo: usize, hi: usize, p: &Vec<char>) -> (res: bool)
    requires
        lo <= hi <= v.len(),
    ensures
        res == (v@.subrange(lo as int, hi as int) == p@),
{
    if hi - lo != p.len() {
        return false;
    }
    let r = matches_at_exec(v, p, lo);
    r
}

/// The decimal notation of `n` (`u64::to_string`).
pub fn decimal_string(n: u64) -> (res: String)
    ensures
        res@ == decimal(n as nat),
{
    let mut digits: Vec<char> = Vec::new();
    let mut m = n;
    // digits holds the notation of n's low part, most significant first
    while m >= 10
        invariant
            m <= n,
            decimal(n as nat) == decimal(m as nat) + digits@,
        decreases m,
    {
        let d = (m % 10) as u32;
        let c = char_of_digit(d);
        let ghost old_digits = digits@;
        digits.insert(0, c);
        assert(decimal(m as nat) == decimal((m / 10) as nat).push(digit_char((m % 10) as nat)));
        assert(decimal((m / 10) as nat) + digits@ =~= decimal((m / 10) as nat).push(c)
            + old_digits);
        m = m / 10;
    }
    let mut res = String::new();
    push_char(&mut res, char_of_digit(m as u32));
    let mut i: usize = 0;
    while i < digits.len()
        invariant
            0 <= i <= digits.len(),
            res@ == decimal(m as nat) + digits@.take(i as int),
            m < 10,
        decreases digits.len() - i,
    {
        push_char(&mut res, digits[i]);
        assert(decimal(m as nat) + digits@.take(i + 1) =~= (decimal(m as nat) + digits@.take(
            i as int,
        )).push(digits@[i as int]));
        i += 1;
    }
    assert(digits@.take(digits.len() as int) =~= digits@);
    res
}

/// The character of a decimal digit.
pub fn char_of_digit(d: u32) -> (c: char)
    requires
        d < 10,
    ensures
        c == digit_char(d as nat),
{
    if d == 0 {
        '0'
    } else if d == 1 {
        '1'
    } else if d == 2 {
        '2'
    } else if d == 3 {
        '3'
    } else if d == 4 {
        '4'
    } else if d == 5 {
        '5'
    } else if d == 6 {
        '6'
    } else if d == 7 {
        '7'
    } else if d == 8 {
        '8'
    } else {
        '9'
    }
}

/// The value of a decimal digit character.
pub fn digit_of_char(c: char) -> (d: u32)
    requires
        is_digit(c),
    ensures
        d as nat == digit_value(c),
        d < 10,
{
    (c as u32) - ('0' as u32)
}

/// What `str::parse::<u64>` gives for `v[lo..hi]`, as an option.
pub fn parse_u64_range(v: &Vec<char>, lo: usize, hi: usize) -> (res: Option<u64>)
    requires
        lo <= hi <= v.len(),
    ensures
        res == (match parse_unsigned(v@.subrange(lo as int, hi as int), u64::MAX as nat) {
            Some(n) => Some(n as u64),
            None => None::<u64>,
        }),
{
    let ghost s = v@.subrange(lo as int, hi as int);
    let mut start = lo;
    if lo < hi && v[lo] == '+' {
        start = lo + 1;
        assert(s.drop_first() =~= v@.subrange(start as int, hi as int));
    } else {
        assert(s =~= v@.subrange(start as int, hi as int));
    }
    let ghost digits = v@.subrange(start as int, hi as int);
    assert(parse_unsigned(s, u64::MAX as nat) == unsigned_of_digits(digits, u64::MAX as nat));
    if start == hi {
        return None;
    }
    let mut i = start;
    while i < hi
        invariant
            lo <= start <= i <= hi <= v.len(),
            digits == v@.subrange(start as int, hi as int),
            parse_unsigned(v@.subrange(lo as int, hi as int), u64::MAX as nat)
                == unsigned_of_digits(digits, u64::MAX as nat),
            forall|j: int| start <= j < i ==> is_digit(v@[j]),
        decreases hi - i,
    {
        if !('0' <= v[i] && v[i] <= '9') {
            assert(!is_digit(digits[i - start]));
            return None;
        }
        i += 1;
    }
    assert(all_digits(digits)) by {
        assert forall|j: int| 0 <= j < digits.len() implies is_digit(#[trigger] digits[j]) by {
            assert(digits[j] == v@[start + j]);
        }
    }
    let mut acc: u64 = 0;
    let mut k = start;
    while k < hi
        invariant
            lo <= start <= k <= hi <= v.len(),
            digits == v@.subrange(start as int, hi as int),
            parse_unsigned(v@.subrange(lo as int, hi as int), u64::MAX as nat)
                == unsigned_of_digits(digits, u64::MAX as nat),
            all_digits(digits),
            acc as nat == decimal_value(digits.take(k - start)),
        decreases hi - k,
    {
        assert(digits[k - start] == v@[k as int]);
        let d = digit_of_char(v[k]);
        proof {
            lemma_decimal_value_take(digits, k - start);
        }
        if acc > (u64::MAX - d as u64) / 10 {
            proof {
                lemma_decimal_value_prefix(digits, k - start + 1);
                assert(acc * 10 + d > u64::MAX) by (nonlinear_arith)
                    requires
                        acc > (u64::MAX - d as u64) / 10,
                        d < 10,
                ;
            }
            return None;
        }
        assert(acc * 10 + d <= u64::MAX) by (nonlinear_arith)
            requires
                acc <= (u64::MAX - d as u64) / 10,
                d < 10,
        ;
        acc = acc * 10 + d as u64;
        k += 1;
    }
    assert(digits.take(hi - start) =~= digits);
    Some(acc)
}

/// What `str::parse::<i32>` gives for `s`, as an option.
pub fn parse_i32(s: &str) -> (res: Option<i32>)
    ensures
        res == (match parse_signed(s@, 0x8000_0000, i32::MAX as nat) {
            Some(n) => Some(n as i32),
            None => None::<i32>,
        }),
{
    let v = chars_of(s);
    let n = v.len();
    if n > 0 && v[0] == '-' {
        assert(v@.subrange(1, n as int) =~= s@.drop_first());
        if n > 1 && v[1] == '+' {
            assert(!is_digit(s@.drop_first()[0]));
            return None;
        }
        match parse_u64_range(&v, 1, n) {
            Some(m) => if m <= 0x8000_0000 {
                Some((0 - (m as i64)) as i32)
            } else {
                None
            },
            None => None,
        }
    } else {
        assert(v@.subrange(0, n as int) =~= s@);
        if n > 0 && v[0] == '+' {
            assert(v@.subrange(1, n as int) =~= s@.drop_first());
        }
        match parse_u64_range(&v, 0, n) {
            Some(m) => if m <= 0x7fff_ffff {
                Some(m as i32)
            } else {
                None
            },
            None => None,
        }
    }
}

/// The decimal notation of `i`, as `i32::to_string` writes it.
pub fn i32_string(i: i32) -> (res: String)
    ensures
        res@ == signed_decimal(i as int),
{
    if i < 0 {
        let d = decimal_string((0 - (i as i64)) as u64);
        let mut r = owned("-");
        push_str(&mut r, d.as_str());
        proof {
            reveal_strlit("-");
        }
        r
    } else {
        decimal_string(i as u64)
    }
}

pub proof fn lemma_strings_push(v: Seq<String>, x: String)
    ensures
        strings_view(v.push(x)) == strings_view(v).push(x@),
{
    assert(strings_view(v.push(x)) =~= strings_view(v).push(x@));
}

/// The white-space separated words of `s`.
pub fn words_of(s: &str) -> (res: Vec<String>)
    ensures
        strings_view(res@) == words(s@),
{
    let v = chars_of(s);
    let b = word_bounds(&v);
    let mut res: Vec<String> = Vec::new();
    let mut i: usize = 0;
    while i < b.len()
        invariant
            i <= b.len() == words(v@).len(),
            v@ == s@,
            forall|k: int|
                0 <= k < b.len() ==> {
                    &&& (#[trigger] b[k]).0 <= b[k].1 <= v.len()
                    &&& v@.subrange(b[k].0 as int, b[k].1 as int) == words(v@)[k]
                },
            strings_view(res@) == words(v@).take(i as int),
        decreases b.len() - i,
    {
        let (lo, hi) = b[i];
        let w = string_of(&v, lo, hi);
        let ghost before = res@;
        res.push(w);
        assert(strings_view(res@) =~= strings_view(before).push(words(v@)[i as int]));
        assert(words(v@).take(i + 1) =~= words(v@).take(i as int).push(words(v@)[i as int]));
        i += 1;
    }
    assert(words(v@).take(words(v@).len() as int) =~= words(v@));
    res
}

/// The lines of `s` (what `str::lines` yields).
pub fn lines_of(s: &str) -> (res: Vec<String>)
    ensures
        strings_view(res@) == lines(s@),
{
    let v = chars_of(s);
    let b = line_bounds(&v);
    let mut res: Vec<String> = Vec::new();
    let mut i: usize = 0;
    while i < b.len()
        invariant
            i <= b.len() == lines(v@).len(),
            v@ == s@,
            forall|k: int|
                0 <= k < b.len() ==> {
                    &&& (#[trigger] b[k]).0 <= b[k].1 <= v.len()
                    &&& v@.subrange(b[k].0 as int, b[k].1 as int) == lines(v@)[k]
                },
            strings_view(res@) == lines(v@).take(i as int),
        decreases b.len() - i,
    {
        let (lo, hi) = b[i];
        let l = string_of(&v, lo, hi);
        let ghost before = res@;
        res.push(l);
        proof {
            lemma_strings_push(before, res@[i as int]);
            assert(lines(v@).take(i + 1) =~= lines(v@).take(i as int).push(lines(v@)[i as int]));
        }
        i += 1;
    }
    assert(lines(v@).take(lines(v@).len() as int) =~= lines(v@));
    res
}

/// `s` without its last character (what `String::pop` leaves); `s` itself
/// when it is empty.
pub fn backspaced(s: &str) -> (res: String)
    ensures
        res@ == (if s@.len() > 0 {
            s@.drop_last()
        } else {
            s@
        }),
{
    let v = chars_of(s);
    assert(v@.subrange(0, v.len() as int) =~= s@);
    if v.len() > 0 {
        assert(v@.subrange(0, v.len() - 1) =~= s@.drop_last());
        string_of(&v, 0, v.len() - 1)
    } else {
        string_of(&v, 0, 0)
    }
}

/// `s` with white space removed at both ends (`str::trim`).
pub fn trimmed(s: &str) -> (res: String)
    ensures
        res@ == trim(s@),
{
    let v = chars_of(s);
    assert(v@.subrange(0, v.len() as int) =~= s@);
    let (a, b) = trim_bounds(&v, 0, v.len());
    string_of(&v, a, b)
}

} // verus!
