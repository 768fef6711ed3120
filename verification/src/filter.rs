//! The advanced filter language: boolean combinations of field comparisons.
//!
//! `cpu > 50 AND name ~= "^fi"` parses into an expression tree. The grammar
//! is given exactly by `parse_filter`: the input is trimmed, a leading
//! `NOT `/`not ` negates the rest, a fully parenthesised input is unwrapped,
//! the first top-level `OR`/`or` (else `AND`/`and`) splits the input, and
//! anything else is a single comparison. The scanner that finds the
//! keywords mixes byte offsets of the UTF-8 encoding with character
//! positions; the specification says exactly what it does, including the
//! inputs on which its slicing would fall inside a character, where it
//! stops.

use vstd::prelude::*;
use crate::procinfo::{ProcessInfo, ProcessView};
use crate::text::{
    decimal, decimal_string, i32_string, signed_decimal, str_eq,
    all_digits, chars_of, contains, ends_with, find, find_exec, find_from, is_whitespace, is_ws,
    matches_at, matches_at_exec, owned, push_str, range_eq, starts_with, string_of, trim,
    trim_bounds, trim_char, trim_char_bounds, trim_end, trim_start, lemma_trim_len,
};

verus! {

// ---------------------------------------------------------------------------
// The parsed form
// ---------------------------------------------------------------------------

/// A parsed filter. Numeric comparisons keep the number as it was written;
/// it is always a literal that `f64`'s `FromStr` accepts.
#[derive(Debug)]
pub enum FilterExpression {
    FieldEquals { field: String, value: String },
    FieldNotEquals { field: String, value: String },
    FieldRegex { field: String, pattern: String },
    FieldGreaterThan { field: String, value: String },
    FieldLessThan { field: String, value: String },
    FieldGreaterEqual { field: String, value: String },
    FieldLessEqual { field: String, value: String },
    And(Box<FilterExpression>, Box<FilterExpression>),
    Or(Box<FilterExpression>, Box<FilterExpression>),
    Not(Box<FilterExpression>),
}

/// The mathematical form of a filter: fields and values as character sequences.
pub enum Filter {
    Equals { field: Seq<char>, value: Seq<char> },
    NotEquals { field: Seq<char>, value: Seq<char> },
    Regex { field: Seq<char>, pattern: Seq<char> },
    GreaterThan { field: Seq<char>, value: Seq<char> },
    LessThan { field: Seq<char>, value: Seq<char> },
    GreaterEqual { field: Seq<char>, value: Seq<char> },
    LessEqual { field: Seq<char>, value: Seq<char> },
    And(Box<Filter>, Box<Filter>),
    Or(Box<Filter>, Box<Filter>),
    Not(Box<Filter>),
}

pub open spec fn filter_view(e: FilterExpression) -> Filter
    decreases e,
{
    match e {
        FilterExpression::FieldEquals { field, value } => Filter::Equals {
            field: field@,
            value: value@,
        },
        FilterExpression::FieldNotEquals { field, value } => Filter::NotEquals {
            field: field@,
            value: value@,
        },
        FilterExpression::FieldRegex { field, pattern } => Filter::Regex {
            field: field@,
            pattern: pattern@,
        },
        FilterExpression::FieldGreaterThan { field, value } => Filter::GreaterThan {
            field: field@,
            value: value@,
        },
        FilterExpression::FieldLessThan { field, value } => Filter::LessThan {
            field: field@,
            value: value@,
        },
        FilterExpression::FieldGreaterEqual { field, value } => Filter::GreaterEqual {
            field: field@,
            value: value@,
        },
        FilterExpression::FieldLessEqual { field, value } => Filter::LessEqual {
            field: field@,
            value: value@,
        },
        FilterExpression::And(l, r) => Filter::And(
            Box::new(filter_view(*l)),
            Box::new(filter_view(*r)),
        ),
        FilterExpression::Or(l, r) => Filter::Or(
            Box::new(filter_view(*l)),
            Box::new(filter_view(*r)),
        ),
        FilterExpression::Not(x) => Filter::Not(Box::new(filter_view(*x))),
    }
}

/// What parsing gives: a filter, an error message, or a stop of the scanner
/// (a slice that would fall inside a character).
pub enum Parse {
    Parsed(Filter),
    Failed(Seq<char>),
    Panics,
}

// ---------------------------------------------------------------------------
// Names for outside results
// ---------------------------------------------------------------------------

/// What `str::to_lowercase` gives (Unicode lower-case mapping).
pub uninterp spec fn lowercase(s: Seq<char>) -> Seq<char>;

/// `str::to_lowercase`.
#[verifier::external_body]
pub(crate) fn to_lowercase(s: &str) -> (res: String)
    ensures
        res@ == lowercase(s@),
{
    s.to_lowercase()
}

// ---------------------------------------------------------------------------
// Byte offsets of the UTF-8 encoding
// ---------------------------------------------------------------------------

/// The number of bytes of `c` in UTF-8.
pub open spec fn char_width(c: char) -> nat {
    let u = c as u32;
    if u < 0x80 {
        1
    } else if u < 0x800 {
        2
    } else if u < 0x10000 {
        3
    } else {
        4
    }
}

/// The number of bytes of `s` in UTF-8 (what `str::len` gives).
pub open spec fn byte_len(s: Seq<char>) -> nat
    decreases s.len(),
{
    if s.len() == 0 {
        0
    } else {
        byte_len(s.drop_last()) + char_width(s.last())
    }
}

/// The characters from position `k` on cover exactly `need` bytes,
/// i.e. `need` bytes after the start of character `k` is a character boundary.
pub open spec fn covers(t: Seq<char>, k: int, need: int) -> bool
    decreases need,
{
    if need == 0 {
        true
    } else if need < 0 || k < 0 || k >= t.len() || char_width(t[k]) > need {
        false
    } else {
        covers(t, k + 1, need - char_width(t[k]))
    }
}

/// `chars().nth(j)`.
pub open spec fn nth(t: Seq<char>, j: int) -> Option<char> {
    if 0 <= j < t.len() {
        Some(t[j])
    } else {
        None
    }
}

pub open spec fn is_ws_opt(c: Option<char>) -> bool {
    match c {
        Some(x) => is_ws(x),
        None => false,
    }
}

// ---------------------------------------------------------------------------
// The scanners
// ---------------------------------------------------------------------------

pub enum OpScan {
    Found(int),
    NotFound,
    Panics,
}

/// The top-level search for a boolean keyword (`upper` or `lower`): it walks character starts by byte offset `i`, slices
/// the keyword's length of bytes there, looks at `chars().nth(i - 1)` and
/// `chars().nth(i + len)` for surrounding white space, and tracks parenthesis
/// depth through `chars().nth(i)`. The result is the character position.
pub open spec fn find_op_from(
    t: Seq<char>,
    upper: Seq<char>,
    lower: Seq<char>,
    k: int,
    depth: int,
) -> OpScan
    decreases t.len() - k,
{
    if k < 0 || k >= t.len() {
        OpScan::NotFound
    } else {
        let i = byte_len(t.take(k)) as int;
        let n = upper.len() as int;
        if i + n > byte_len(t) {
            OpScan::NotFound
        } else if !covers(t, k, n) {
            OpScan::Panics
        } else {
            let is_op = matches_at(t, upper, k) || matches_at(t, lower, k);
            let before = if i > 0 {
                nth(t, i - 1)
            } else {
                Some(' ')
            };
            let after = nth(t, i + n);
            if is_op && is_ws_opt(before) && is_ws_opt(after) && depth == 0 {
                OpScan::Found(k)
            } else {
                let c = nth(t, i);
                if c == Some('(') {
                    if depth + 1 > i32::MAX {
                        OpScan::Panics
                    } else {
                        find_op_from(t, upper, lower, k + 1, depth + 1)
                    }
                } else if c == Some(')') {
                    if depth - 1 < i32::MIN {
                        OpScan::Panics
                    } else {
                        find_op_from(t, upper, lower, k + 1, depth - 1)
                    }
                } else {
                    find_op_from(t, upper, lower, k + 1, depth)
                }
            }
        }
    }
}

pub open spec fn and_upper() -> Seq<char> {
    seq!['A', 'N', 'D']
}

pub open spec fn and_lower() -> Seq<char> {
    seq!['a', 'n', 'd']
}

pub open spec fn or_upper() -> Seq<char> {
    seq!['O', 'R']
}

pub open spec fn or_lower() -> Seq<char> {
    seq!['o', 'r']
}

pub enum CloseScan {
    Closed(int),
    Open,
    Overflow,
}

/// The search for the parenthesis that closes the first one.
pub open spec fn scan_close(t: Seq<char>, k: int, depth: int) -> CloseScan
    decreases t.len() - k,
{
    if k < 0 || k >= t.len() {
        CloseScan::Open
    } else if t[k] == '(' {
        if depth + 1 > i32::MAX {
            CloseScan::Overflow
        } else {
            scan_close(t, k + 1, depth + 1)
        }
    } else if t[k] == ')' {
        if depth - 1 < i32::MIN {
            CloseScan::Overflow
        } else if depth - 1 == 0 {
            CloseScan::Closed(k)
        } else {
            scan_close(t, k + 1, depth - 1)
        }
    } else {
        scan_close(t, k + 1, depth)
    }
}

// ---------------------------------------------------------------------------
// Numbers
// ---------------------------------------------------------------------------

/// `s` spells a word whose lower-case spelling is `lower` and upper-case
/// spelling is `upper`, each letter in either case.
pub open spec fn eq_ignore_case(s: Seq<char>, lower: Seq<char>, upper: Seq<char>) -> bool {
    &&& s.len() == lower.len()
    &&& forall|i: int| 0 <= i < s.len() ==> #[trigger] s[i] == lower[i] || s[i] == upper[i]
}

pub open spec fn is_sign(c: char) -> bool {
    c == '+' || c == '-'
}

/// `Digit* '.' Digit*` or `Digit+`, with at least one digit.
pub open spec fn is_mantissa(m: Seq<char>) -> bool {
    match find(m, seq!['.']) {
        None => m.len() > 0 && all_digits(m),
        Some(d) => {
            let int_part = m.take(d);
            let frac = m.skip(d + 1);
            all_digits(int_part) && all_digits(frac) && int_part.len() + frac.len() > 0
        },
    }
}

/// `Sign? Digit+`.
pub open spec fn is_exponent(e: Seq<char>) -> bool {
    let digits = if e.len() > 0 && is_sign(e[0]) {
        e.drop_first()
    } else {
        e
    };
    digits.len() > 0 && all_digits(digits)
}

/// The position of the first `e` or `E` at or after `i`.
pub open spec fn first_exp_marker_from(b: Seq<char>, i: int) -> Option<int>
    decreases b.len() - i,
{
    if i < 0 || i >= b.len() {
        None
    } else if b[i] == 'e' || b[i] == 'E' {
        Some(i)
    } else {
        first_exp_marker_from(b, i + 1)
    }
}

pub open spec fn first_exp_marker(b: Seq<char>) -> Option<int> {
    first_exp_marker_from(b, 0)
}

/// The strings that `f64`'s `FromStr` accepts:
/// `Sign? ('inf' | 'infinity' | 'nan' | Number)`, the words in any case,
/// `Number ::= Mantissa (('e' | 'E') Sign? Digit+)?`.
pub open spec fn is_float_literal(s: Seq<char>) -> bool {
    let b = if s.len() > 0 && is_sign(s[0]) {
        s.drop_first()
    } else {
        s
    };
    ||| eq_ignore_case(b, seq!['i', 'n', 'f'], seq!['I', 'N', 'F'])
    ||| eq_ignore_case(
        b,
        seq!['i', 'n', 'f', 'i', 'n', 'i', 't', 'y'],
        seq!['I', 'N', 'F', 'I', 'N', 'I', 'T', 'Y'],
    )
    ||| eq_ignore_case(b, seq!['n', 'a', 'n'], seq!['N', 'A', 'N'])
    ||| match first_exp_marker(b) {
        None => is_mantissa(b),
        Some(e) => is_mantissa(b.take(e)) && is_exponent(b.skip(e + 1)),
    }
}

// ---------------------------------------------------------------------------
// The grammar
// ---------------------------------------------------------------------------

/// The comparison operators in the order in which they are tried.
pub open spec fn op_chars(j: int) -> Seq<char> {
    if j == 0 {
        seq!['>', '=']
    } else if j == 1 {
        seq!['<', '=']
    } else if j == 2 {
        seq!['~', '=']
    } else if j == 3 {
        seq!['=', '=']
    } else if j == 4 {
        seq!['!', '=']
    } else if j == 5 {
        seq!['>']
    } else {
        seq!['<']
    }
}

pub open spec fn unquote(s: Seq<char>) -> Seq<char> {
    trim_char(trim_char(trim(s), '"'), '\'')
}

/// The comparison built when operator `j` first occurs at position `k` of `t`.
pub open spec fn comparison_at(t: Seq<char>, j: int, k: int) -> Parse {
    let op = op_chars(j);
    let field = lowercase(trim(t.take(k)));
    let value = unquote(t.skip(k + op.len()));
    if j == 2 {
        Parse::Parsed(Filter::Regex { field, pattern: value })
    } else if j == 0 || j == 1 || j == 5 || j == 6 {
        if !is_float_literal(value) {
            Parse::Failed("Invalid number: "@ + value)
        } else if j == 0 {
            Parse::Parsed(Filter::GreaterEqual { field, value })
        } else if j == 1 {
            Parse::Parsed(Filter::LessEqual { field, value })
        } else if j == 5 {
            Parse::Parsed(Filter::GreaterThan { field, value })
        } else {
            Parse::Parsed(Filter::LessThan { field, value })
        }
    } else if j == 3 {
        Parse::Parsed(Filter::Equals { field, value })
    } else {
        Parse::Parsed(Filter::NotEquals { field, value })
    }
}

/// Tries the operators from `j` on.
pub open spec fn comparison_from(t: Seq<char>, j: int) -> Parse
    decreases 7 - j,
{
    if j < 0 || j >= 7 {
        match find(t, seq!['~']) {
            Some(k) => Parse::Parsed(
                Filter::Regex { field: lowercase(trim(t.take(k))), pattern: unquote(t.skip(k + 1)) },
            ),
            None => Parse::Failed("Invalid filter expression: "@ + t),
        }
    } else {
        match find(t, op_chars(j)) {
            Some(k) => comparison_at(t, j, k),
            None => comparison_from(t, j + 1),
        }
    }
}

/// A single field comparison.
pub open spec fn parse_comparison(s: Seq<char>) -> Parse {
    comparison_from(trim(s), 0)
}

pub open spec fn wrap_not(p: Parse) -> Parse {
    match p {
        Parse::Parsed(f) => Parse::Parsed(Filter::Not(Box::new(f))),
        other => other,
    }
}

/// A binary split at character `k` of `t`, the right part starting at `r`;
/// `or` selects the connective. The left part is parsed first.
pub open spec fn split_parse(left: Parse, right: Parse, or: bool) -> Parse {
    match left {
        Parse::Parsed(l) => match right {
            Parse::Parsed(r) => if or {
                Parse::Parsed(Filter::Or(Box::new(l), Box::new(r)))
            } else {
                Parse::Parsed(Filter::And(Box::new(l), Box::new(r)))
            },
            other => other,
        },
        other => other,
    }
}

/// `t` starts with `(` and ends with `)` (two distinct characters, so `t` has at least two).
pub open spec fn is_paren_wrapped(t: Seq<char>) -> bool {
    t.len() >= 2 && t[0] == '(' && t[t.len() - 1] == ')'
}

/// An expression.
pub open spec fn parse_expr(s: Seq<char>) -> Parse
    decreases s.len(), 1int,
{
    let t = trim(s);
    proof {
        lemma_trim_len(s);
    }
    if starts_with(t, seq!['N', 'O', 'T', ' ']) || starts_with(t, seq!['n', 'o', 't', ' ']) {
        let rest = trim(t.skip(4));
        proof {
            lemma_trim_len(t.skip(4));
        }
        if is_paren_wrapped(rest) {
            wrap_not(parse_expr(rest.subrange(1, rest.len() - 1)))
        } else {
            wrap_not(parse_expr(rest))
        }
    } else if is_paren_wrapped(t) && scan_close(t, 0, 0) is Overflow {
        Parse::Panics
    } else if is_paren_wrapped(t) && (match scan_close(t, 0, 0) {
        CloseScan::Closed(k) => k,
        _ => 0,
    }) == byte_len(t) - 1 {
        parse_expr(t.subrange(1, t.len() - 1))
    } else {
        parse_connectives(t)
    }
}

/// An expression that is neither negated nor fully parenthesised: split at
/// the first top-level `OR`, else at the first top-level `AND`, else a comparison.
pub open spec fn parse_connectives(t: Seq<char>) -> Parse
    decreases t.len(), 0int,
{
    let and_scan = find_op_from(t, and_upper(), and_lower(), 0, 0);
    let or_scan = find_op_from(t, or_upper(), or_lower(), 0, 0);
    if and_scan is Panics || or_scan is Panics {
        Parse::Panics
    } else if or_scan is Found {
        let k = or_scan->Found_0;
        proof {
            lemma_find_op_found(t, or_upper(), or_lower(), 0, 0);
        }
        let left = parse_expr(t.take(k));
        if k + 3 <= t.len() && char_width(t[k + 2]) == 1 {
            split_parse(left, parse_expr(t.skip(k + 3)), true)
        } else {
            split_parse(left, Parse::Panics, true)
        }
    } else if and_scan is Found {
        let k = and_scan->Found_0;
        proof {
            lemma_find_op_found(t, and_upper(), and_lower(), 0, 0);
        }
        split_parse(parse_expr(t.take(k)), parse_expr(t.skip(k + 3)), false)
    } else {
        parse_comparison(t)
    }
}

/// What `FilterParser::parse` gives for `input`.
pub open spec fn parse_filter(input: Seq<char>) -> Parse {
    if trim(input).len() == 0 {
        Parse::Failed("Empty filter expression"@)
    } else {
        parse_expr(trim(input))
    }
}

// ---------------------------------------------------------------------------
// Lemmas
// ---------------------------------------------------------------------------

pub proof fn lemma_find_op_found(t: Seq<char>, upper: Seq<char>, lower: Seq<char>, k: int, depth: int)
    requires
        upper.len() == lower.len(),
    ensures
        find_op_from(t, upper, lower, k, depth) matches OpScan::Found(j) ==> (0 <= j < t.len()
            && (matches_at(t, upper, j) || matches_at(t, lower, j))),
    decreases t.len() - k,
{
    if k < 0 || k >= t.len() {
    } else {
        let i = byte_len(t.take(k)) as int;
        let n = upper.len() as int;
        if i + n > byte_len(t) {
        } else if !covers(t, k, n) {
        } else {
            let c = nth(t, i);
            if c == Some('(') {
                if depth + 1 <= i32::MAX {
                    lemma_find_op_found(t, upper, lower, k + 1, depth + 1);
                }
            } else if c == Some(')') {
                if depth - 1 >= i32::MIN {
                    lemma_find_op_found(t, upper, lower, k + 1, depth - 1);
                }
            } else {
                lemma_find_op_found(t, upper, lower, k + 1, depth);
            }
        }
    }
}

proof fn lemma_byte_len_take(t: Seq<char>, k: int)
    requires
        0 <= k < t.len(),
    ensures
        byte_len(t.take(k + 1)) == byte_len(t.take(k)) + char_width(t[k]),
{
    assert(t.take(k + 1).drop_last() =~= t.take(k));
}

proof fn lemma_byte_len_bound(t: Seq<char>)
    ensures
        t.len() <= byte_len(t) <= 4 * t.len(),
    decreases t.len(),
{
    if t.len() > 0 {
        lemma_byte_len_bound(t.drop_last());
    }
}


// ---------------------------------------------------------------------------
// Executable parser
// ---------------------------------------------------------------------------

/// The outcome of the scanner: a filter, an error message, or a stop on an
/// input where a slice would fall inside a character.
pub enum ParseOutcome {
    Parsed(FilterExpression),
    Failed(String),
    Panics,
}

pub open spec fn outcome_view(o: ParseOutcome) -> Parse {
    match o {
        ParseOutcome::Parsed(e) => Parse::Parsed(filter_view(e)),
        ParseOutcome::Failed(m) => Parse::Failed(m@),
        ParseOutcome::Panics => Parse::Panics,
    }
}

pub enum OpResult {
    Found(usize),
    NotFound,
    Panics,
}

pub open spec fn op_result_view(r: OpResult) -> OpScan {
    match r {
        OpResult::Found(k) => OpScan::Found(k as int),
        OpResult::NotFound => OpScan::NotFound,
        OpResult::Panics => OpScan::Panics,
    }
}

pub enum CloseResult {
    Closed(usize),
    Open,
    Overflow,
}

pub open spec fn close_result_view(r: CloseResult) -> CloseScan {
    match r {
        CloseResult::Closed(k) => CloseScan::Closed(k as int),
        CloseResult::Open => CloseScan::Open,
        CloseResult::Overflow => CloseScan::Overflow,
    }
}

/// `v[lo..hi]` as a vector of its own.
fn slice_of(v: &Vec<char>, lo: usize, hi: usize) -> (res: Vec<char>)
    requires
        lo <= hi <= v.len(),
    ensures
        res@ == v@.subrange(lo as int, hi as int),
{
    let mut res: Vec<char> = Vec::new();
    let mut i = lo;
    while i < hi
        invariant
            lo <= i <= hi <= v.len(),
            res@ == v@.subrange(lo as int, i as int),
        decreases hi - i,
    {
        res.push(v[i]);
        assert(v@.subrange(lo as int, i + 1) =~= v@.subrange(lo as int, i as int).push(v@[i as int]));
        i += 1;
    }
    res
}

fn width_of(c: char) -> (w: u128)
    ensures
        w == char_width(c),
{
    let u = c as u32;
    if u < 0x80 {
        1
    } else if u < 0x800 {
        2
    } else if u < 0x10000 {
        3
    } else {
        4
    }
}

fn byte_len_vec(t: &Vec<char>) -> (b: u128)
    ensures
        b == byte_len(t@),
        t@.len() <= b <= 4 * t@.len(),
{
    let mut b: u128 = 0;
    let mut k: usize = 0;
    while k < t.len()
        invariant
            0 <= k <= t.len(),
            b == byte_len(t@.take(k as int)),
            b <= 4 * k,
        decreases t.len() - k,
    {
        proof {
            lemma_byte_len_take(t@, k as int);
        }
        b = b + width_of(t[k]);
        k += 1;
    }
    assert(t@.take(t.len() as int) =~= t@);
    proof {
        lemma_byte_len_bound(t@);
    }
    b
}

fn nth_vec(t: &Vec<char>, j: u128) -> (res: Option<char>)
    ensures
        res == nth(t@, j as int),
{
    if j < t.len() as u128 {
        Some(t[j as usize])
    } else {
        None
    }
}

fn is_ws_option(c: Option<char>) -> (res: bool)
    ensures
        res == is_ws_opt(c),
{
    match c {
        Some(x) => is_whitespace(x),
        None => false,
    }
}

fn is_char(c: Option<char>, x: char) -> (res: bool)
    ensures
        res == (c == Some(x)),
{
    match c {
        Some(y) => y == x,
        None => false,
    }
}

fn covers_vec(t: &Vec<char>, k: usize, need: u128) -> (res: bool)
    ensures
        res == covers(t@, k as int, need as int),
{
    let mut j = k;
    let mut rem = need;
    while rem > 0
        invariant
            covers(t@, k as int, need as int) == covers(t@, j as int, rem as int),
        decreases rem,
    {
        if j >= t.len() {
            return false;
        }
        let w = width_of(t[j]);
        if w > rem {
            return false;
        }
        rem = rem - w;
        j = j + 1;
    }
    true
}

/// The scan for a boolean keyword; `upper`/`lower` are its two spellings.
fn find_op(t: &Vec<char>, upper: &Vec<char>, lower: &Vec<char>) -> (res: OpResult)
    requires
        upper@.len() == lower@.len(),
        1 <= upper@.len() <= 3,
    ensures
        op_result_view(res) == find_op_from(t@, upper@, lower@, 0, 0),
{
    let total = byte_len_vec(t);
    let n_op = upper.len() as u128;
    let mut k: usize = 0;
    let mut i: u128 = 0;
    let mut depth: i64 = 0;
    while k < t.len()
        invariant
            0 <= k <= t.len(),
            upper@.len() == lower@.len(),
            n_op == upper@.len(),
            1 <= n_op <= 3,
            total == byte_len(t@),
            total <= 4 * t@.len(),
            i == byte_len(t@.take(k as int)),
            i <= 4 * k,
            i32::MIN <= depth <= i32::MAX,
            find_op_from(t@, upper@, lower@, 0, 0) == find_op_from(
                t@,
                upper@,
                lower@,
                k as int,
                depth as int,
            ),
        decreases t.len() - k,
    {
        if i + n_op > total {
            return OpResult::NotFound;
        }
        if !covers_vec(t, k, n_op) {
            return OpResult::Panics;
        }
        let is_op = matches_at_exec(t, upper, k) || matches_at_exec(t, lower, k);
        let before = if i > 0 {
            nth_vec(t, i - 1)
        } else {
            Some(' ')
        };
        let after = nth_vec(t, i + n_op);
        if is_op && is_ws_option(before) && is_ws_option(after) && depth == 0 {
            return OpResult::Found(k);
        }
        let c = nth_vec(t, i);
        if is_char(c, '(') {
            if depth == i32::MAX as i64 {
                return OpResult::Panics;
            }
            depth = depth + 1;
        } else if is_char(c, ')') {
            if depth == i32::MIN as i64 {
                return OpResult::Panics;
            }
            depth = depth - 1;
        }
        proof {
            lemma_byte_len_take(t@, k as int);
        }
        i = i + width_of(t[k]);
        k += 1;
    }
    OpResult::NotFound
}

/// The scan for the parenthesis closing the first one.
fn scan_close_vec(t: &Vec<char>) -> (res: CloseResult)
    ensures
        close_result_view(res) == scan_close(t@, 0, 0),
{
    let mut k: usize = 0;
    let mut depth: i64 = 0;
    while k < t.len()
        invariant
            0 <= k <= t.len(),
            i32::MIN <= depth <= i32::MAX,
            scan_close(t@, 0, 0) == scan_close(t@, k as int, depth as int),
        decreases t.len() - k,
    {
        let c = t[k];
        if c == '(' {
            if depth == i32::MAX as i64 {
                return CloseResult::Overflow;
            }
            depth = depth + 1;
        } else if c == ')' {
            if depth == i32::MIN as i64 {
                return CloseResult::Overflow;
            }
            if depth - 1 == 0 {
                return CloseResult::Closed(k);
            }
            depth = depth - 1;
        }
        k += 1;
    }
    CloseResult::Open
}

fn all_digits_vec(t: &Vec<char>, lo: usize, hi: usize) -> (res: bool)
    requires
        lo <= hi <= t.len(),
    ensures
        res == all_digits(t@.subrange(lo as int, hi as int)),
{
    let mut i = lo;
    while i < hi
        invariant
            lo <= i <= hi <= t.len(),
            forall|j: int| lo <= j < i ==> crate::text::is_digit(t@[j]),
        decreases hi - i,
    {
        if !('0' <= t[i] && t[i] <= '9') {
            assert(!crate::text::is_digit(t@.subrange(lo as int, hi as int)[i - lo]));
            return false;
        }
        i += 1;
    }
    assert forall|j: int| 0 <= j < hi - lo implies crate::text::is_digit(
        #[trigger] t@.subrange(lo as int, hi as int)[j],
    ) by {
        assert(t@.subrange(lo as int, hi as int)[j] == t@[lo + j]);
    }
    true
}

fn eq_ignore_case_vec(t: &Vec<char>, lo: usize, hi: usize, lower: &Vec<char>, upper: &Vec<char>) -> (res: bool)
    requires
        lo <= hi <= t.len(),
        lower.len() == upper.len(),
    ensures
        res == eq_ignore_case(t@.subrange(lo as int, hi as int), lower@, upper@),
{
    let ghost s = t@.subrange(lo as int, hi as int);
    if hi - lo != lower.len() {
        return false;
    }
    let mut i: usize = 0;
    while i < lower.len()
        invariant
            s == t@.subrange(lo as int, hi as int),
            lo <= hi <= t.len(),
            hi - lo == lower.len(),
            lower.len() == upper.len(),
            0 <= i <= lower.len(),
            forall|j: int| 0 <= j < i ==> #[trigger] s[j] == lower@[j] || s[j] == upper@[j],
        decreases lower.len() - i,
    {
        assert(s[i as int] == t@[lo + i]);
        if t[lo + i] != lower[i] && t[lo + i] != upper[i] {
            return false;
        }
        i += 1;
    }
    true
}

fn seq_of3(a: char, b: char, c: char) -> (res: Vec<char>)
    ensures
        res@ == seq![a, b, c],
{
    let mut v: Vec<char> = Vec::new();
    v.push(a);
    v.push(b);
    v.push(c);
    assert(v@ =~= seq![a, b, c]);
    v
}

fn seq_of8(a: char, b: char, c: char, d: char, e: char, f: char, g: char, h: char) -> (res: Vec<
    char,
>)
    ensures
        res@ == seq![a, b, c, d, e, f, g, h],
{
    let mut v: Vec<char> = Vec::new();
    v.push(a);
    v.push(b);
    v.push(c);
    v.push(d);
    v.push(e);
    v.push(f);
    v.push(g);
    v.push(h);
    assert(v@ =~= seq![a, b, c, d, e, f, g, h]);
    v
}

fn first_exp_marker_vec(t: &Vec<char>, lo: usize, hi: usize) -> (res: Option<usize>)
    requires
        lo <= hi <= t.len(),
    ensures
        res matches Some(e) ==> lo <= e < hi,
        (match res {
            Some(e) => Some((e - lo) as int),
            None => None::<int>,
        }) == first_exp_marker(t@.subrange(lo as int, hi as int)),
{
    let ghost s = t@.subrange(lo as int, hi as int);
    let mut i = lo;
    while i < hi
        invariant
            s == t@.subrange(lo as int, hi as int),
            lo <= i <= hi <= t.len(),
            first_exp_marker(s) == first_exp_marker_from(s, i - lo),
        decreases hi - i,
    {
        assert(s[i - lo] == t@[i as int]);
        if t[i] == 'e' || t[i] == 'E' {
            return Some(i);
        }
        i += 1;
    }
    None
}

fn is_mantissa_vec(t: &Vec<char>, lo: usize, hi: usize) -> (res: bool)
    requires
        lo <= hi <= t.len(),
    ensures
        res == is_mantissa(t@.subrange(lo as int, hi as int)),
{
    let m = slice_of(t, lo, hi);
    let mut dot: Vec<char> = Vec::new();
    dot.push('.');
    assert(dot@ =~= seq!['.']);
    assert(m@.subrange(0, m@.len() as int) =~= m@);
    let found = find_exec(&m, &dot, 0);
    match found {
        None => {
            assert(find(m@, seq!['.']) is None);
            m.len() > 0 && all_digits_vec(&m, 0, m.len())
        },
        Some(d) => {
            assert(find(m@, seq!['.']) == Some(d as int));
            assert(m@.take(d as int) =~= m@.subrange(0, d as int));
            assert(m@.skip(d + 1) =~= m@.subrange(d + 1, m@.len() as int));
            all_digits_vec(&m, 0, d) && all_digits_vec(&m, d + 1, m.len()) && d + (m.len() - d - 1)
                > 0
        },
    }
}

fn is_exponent_vec(t: &Vec<char>, lo: usize, hi: usize) -> (res: bool)
    requires
        lo <= hi <= t.len(),
    ensures
        res == is_exponent(t@.subrange(lo as int, hi as int)),
{
    let ghost e = t@.subrange(lo as int, hi as int);
    let mut start = lo;
    if lo < hi && (t[lo] == '+' || t[lo] == '-') {
        start = lo + 1;
        assert(e.drop_first() =~= t@.subrange(start as int, hi as int));
    } else {
        assert(e =~= t@.subrange(start as int, hi as int));
    }
    start < hi && all_digits_vec(t, start, hi)
}

/// Whether `t` is a literal that `f64`'s `FromStr` accepts.
fn is_float_literal_vec(t: &Vec<char>) -> (res: bool)
    ensures
        res == is_float_literal(t@),
{
    let ghost s = t@;
    let mut start: usize = 0;
    if t.len() > 0 && (t[0] == '+' || t[0] == '-') {
        start = 1;
        assert(s.drop_first() =~= t@.subrange(1, t.len() as int));
    } else {
        assert(s =~= t@.subrange(0, t.len() as int));
    }
    let ghost b = t@.subrange(start as int, t.len() as int);
    let inf = seq_of3('i', 'n', 'f');
    let inf_up = seq_of3('I', 'N', 'F');
    let nan = seq_of3('n', 'a', 'n');
    let nan_up = seq_of3('N', 'A', 'N');
    let infinity = seq_of8('i', 'n', 'f', 'i', 'n', 'i', 't', 'y');
    let infinity_up = seq_of8('I', 'N', 'F', 'I', 'N', 'I', 'T', 'Y');
    if eq_ignore_case_vec(t, start, t.len(), &inf, &inf_up) || eq_ignore_case_vec(
        t,
        start,
        t.len(),
        &infinity,
        &infinity_up,
    ) || eq_ignore_case_vec(t, start, t.len(), &nan, &nan_up) {
        return true;
    }
    match first_exp_marker_vec(t, start, t.len()) {
        None => is_mantissa_vec(t, start, t.len()),
        Some(e) => {
            assert(b.take(e - start) =~= t@.subrange(start as int, e as int));
            assert(b.skip(e - start + 1) =~= t@.subrange(e + 1, t.len() as int));
            is_mantissa_vec(t, start, e) && is_exponent_vec(t, e + 1, t.len())
        },
    }
}

/// The characters of comparison operator `j`.
fn op_vec(j: usize) -> (res: Vec<char>)
    requires
        j < 7,
    ensures
        res@ == op_chars(j as int),
{
    let mut v: Vec<char> = Vec::new();
    if j == 0 {
        v.push('>');
        v.push('=');
    } else if j == 1 {
        v.push('<');
        v.push('=');
    } else if j == 2 {
        v.push('~');
        v.push('=');
    } else if j == 3 {
        v.push('=');
        v.push('=');
    } else if j == 4 {
        v.push('!');
        v.push('=');
    } else if j == 5 {
        v.push('>');
    } else {
        v.push('<');
    }
    assert(v@ =~= op_chars(j as int));
    v
}

/// `lowercase(trim(t[lo..hi]))` as a string.
fn field_name(t: &Vec<char>, lo: usize, hi: usize) -> (res: String)
    requires
        lo <= hi <= t.len(),
    ensures
        res@ == lowercase(trim(t@.subrange(lo as int, hi as int))),
{
    let (a, b) = trim_bounds(t, lo, hi);
    let raw = string_of(t, a, b);
    to_lowercase(raw.as_str())
}

/// `unquote(t[lo..])` as a string.
fn unquoted(t: &Vec<char>, lo: usize) -> (res: String)
    requires
        lo <= t.len(),
    ensures
        res@ == unquote(t@.skip(lo as int)),
{
    assert(t@.skip(lo as int) =~= t@.subrange(lo as int, t.len() as int));
    let (a, b) = trim_bounds(t, lo, t.len());
    let (a2, b2) = trim_char_bounds(t, a, b, '"');
    let (a3, b3) = trim_char_bounds(t, a2, b2, '\'');
    string_of(t, a3, b3)
}

/// The comparison for operator `j` found at position `k`.
fn comparison_at_vec(t: &Vec<char>, j: usize, k: usize) -> (res: ParseOutcome)
    requires
        j < 7,
        k + op_chars(j as int).len() <= t.len(),
    ensures
        outcome_view(res) == comparison_at(t@, j as int, k as int),
{
    let op_len: usize = if j == 5 || j == 6 {
        1
    } else {
        2
    };
    assert(t@.take(k as int) =~= t@.subrange(0, k as int));
    let field = field_name(t, 0, k);
    let value = unquoted(t, k + op_len);
    if j == 2 {
        return ParseOutcome::Parsed(FilterExpression::FieldRegex { field, pattern: value });
    }
    if j == 0 || j == 1 || j == 5 || j == 6 {
        let vchars = chars_of(value.as_str());
        if !is_float_literal_vec(&vchars) {
            let mut msg = owned("Invalid number: ");
            push_str(&mut msg, value.as_str());
            return ParseOutcome::Failed(msg);
        }
        if j == 0 {
            return ParseOutcome::Parsed(FilterExpression::FieldGreaterEqual { field, value });
        } else if j == 1 {
            return ParseOutcome::Parsed(FilterExpression::FieldLessEqual { field, value });
        } else if j == 5 {
            return ParseOutcome::Parsed(FilterExpression::FieldGreaterThan { field, value });
        } else {
            return ParseOutcome::Parsed(FilterExpression::FieldLessThan { field, value });
        }
    }
    if j == 3 {
        ParseOutcome::Parsed(FilterExpression::FieldEquals { field, value })
    } else {
        ParseOutcome::Parsed(FilterExpression::FieldNotEquals { field, value })
    }
}

/// A single comparison (`parse_comparison`).
fn comparison_vec(s: &Vec<char>) -> (res: ParseOutcome)
    ensures
        outcome_view(res) == parse_comparison(s@),
{
    let (a, b) = trim_bounds(s, 0, s.len());
    assert(s@.subrange(0, s@.len() as int) =~= s@);
    let t = slice_of(s, a, b);
    let mut j: usize = 0;
    while j < 7
        invariant
            0 <= j <= 7,
            t@ == trim(s@),
            parse_comparison(s@) == comparison_from(t@, j as int),
        decreases 7 - j,
    {
        let op = op_vec(j);
        match find_exec(&t, &op, 0) {
            Some(k) => {
                assert(find(t@, op_chars(j as int)) == Some(k as int));
                return comparison_at_vec(&t, j, k);
            },
            None => {
                assert(find(t@, op_chars(j as int)) is None);
            },
        }
        j += 1;
    }
    let mut tilde: Vec<char> = Vec::new();
    tilde.push('~');
    assert(tilde@ =~= seq!['~']);
    assert(comparison_from(t@, 7) == match find(t@, seq!['~']) {
        Some(k) => Parse::Parsed(
            Filter::Regex { field: lowercase(trim(t@.take(k))), pattern: unquote(t@.skip(k + 1)) },
        ),
        None => Parse::Failed("Invalid filter expression: "@ + t@),
    });
    match find_exec(&t, &tilde, 0) {
        Some(k) => {
            assert(find(t@, seq!['~']) == Some(k as int));
            assert(t@.take(k as int) =~= t@.subrange(0, k as int));
            let field = field_name(&t, 0, k);
            let pattern = unquoted(&t, k + 1);
            ParseOutcome::Parsed(FilterExpression::FieldRegex { field, pattern })
        },
        None => {
            let mut msg = owned("Invalid filter expression: ");
            let whole = string_of(&t, 0, t.len());
            assert(t@.subrange(0, t@.len() as int) =~= t@);
            push_str(&mut msg, whole.as_str());
            ParseOutcome::Failed(msg)
        },
    }
}

fn keyword(c0: char, c1: char, c2: char, n: usize) -> (res: Vec<char>)
    requires
        2 <= n <= 3,
    ensures
        n == 3 ==> res@ == seq![c0, c1, c2],
        n == 2 ==> res@ == seq![c0, c1],
{
    let mut v: Vec<char> = Vec::new();
    v.push(c0);
    v.push(c1);
    if n == 3 {
        v.push(c2);
        assert(v@ =~= seq![c0, c1, c2]);
    } else {
        assert(v@ =~= seq![c0, c1]);
    }
    v
}

fn starts_with_not(t: &Vec<char>) -> (res: bool)
    ensures
        res == (starts_with(t@, seq!['N', 'O', 'T', ' ']) || starts_with(
            t@,
            seq!['n', 'o', 't', ' '],
        )),
{
    if t.len() < 4 {
        return false;
    }
    let upper = t[0] == 'N' && t[1] == 'O' && t[2] == 'T' && t[3] == ' ';
    let lower = t[0] == 'n' && t[1] == 'o' && t[2] == 't' && t[3] == ' ';
    if upper {
        assert(t@.subrange(0, 4) =~= seq!['N', 'O', 'T', ' ']);
    } else {
        assert(t@.subrange(0, 4)[0] == t@[0]);
        assert(t@.subrange(0, 4)[1] == t@[1]);
        assert(t@.subrange(0, 4)[2] == t@[2]);
        assert(t@.subrange(0, 4)[3] == t@[3]);
    }
    if lower {
        assert(t@.subrange(0, 4) =~= seq!['n', 'o', 't', ' ']);
    }
    upper || lower
}

fn paren_wrapped(t: &Vec<char>) -> (res: bool)
    ensures
        res == is_paren_wrapped(t@),
{
    t.len() >= 2 && t[0] == '(' && t[t.len() - 1] == ')'
}

fn negate(o: ParseOutcome) -> (res: ParseOutcome)
    ensures
        outcome_view(res) == wrap_not(outcome_view(o)),
{
    match o {
        ParseOutcome::Parsed(e) => ParseOutcome::Parsed(FilterExpression::Not(Box::new(e))),
        other => other,
    }
}

/// An expression (`parse_expression`).
fn parse_vec(s: &Vec<char>) -> (res: ParseOutcome)
    ensures
        outcome_view(res) == parse_expr(s@),
    decreases s.len(), 1int,
{
    let (a, b) = trim_bounds(s, 0, s.len());
    assert(s@.subrange(0, s@.len() as int) =~= s@);
    let t = slice_of(s, a, b);
    if starts_with_not(&t) {
        let (c, d) = trim_bounds(&t, 4, t.len());
        assert(t@.skip(4) =~= t@.subrange(4, t@.len() as int));
        let rest = slice_of(&t, c, d);
        if paren_wrapped(&rest) {
            let inner = slice_of(&rest, 1, rest.len() - 1);
            let r = parse_vec(&inner);
            return negate(r);
        } else {
            let r = parse_vec(&rest);
            return negate(r);
        }
    }
    if paren_wrapped(&t) {
        match scan_close_vec(&t) {
            CloseResult::Overflow => {
                return ParseOutcome::Panics;
            },
            scanned => {
                let end_pos: usize = match scanned {
                    CloseResult::Closed(k) => k,
                    _ => 0,
                };
                let total = byte_len_vec(&t);
                if end_pos as u128 == total - 1 {
                    let inner = slice_of(&t, 1, t.len() - 1);
                    return parse_vec(&inner);
                }
            },
        }
    }
    connectives_vec(&t)
}

/// The connective split (`parse_connectives`).
fn connectives_vec(t: &Vec<char>) -> (res: ParseOutcome)
    ensures
        outcome_view(res) == parse_connectives(t@),
    decreases t.len(), 0int,
{
    let and_upper_v = keyword('A', 'N', 'D', 3);
    let and_lower_v = keyword('a', 'n', 'd', 3);
    let or_upper_v = keyword('O', 'R', ' ', 2);
    let or_lower_v = keyword('o', 'r', ' ', 2);
    let and_scan = find_op(t, &and_upper_v, &and_lower_v);
    let or_scan = find_op(t, &or_upper_v, &or_lower_v);
    match and_scan {
        OpResult::Panics => {
            return ParseOutcome::Panics;
        },
        _ => {},
    }
    match or_scan {
        OpResult::Panics => {
            return ParseOutcome::Panics;
        },
        OpResult::Found(k) => {
            proof {
                lemma_find_op_found(t@, or_upper(), or_lower(), 0, 0);
            }
            let left_part = slice_of(t, 0, k);
            assert(t@.take(k as int) =~= left_part@);
            let left = parse_vec(&left_part);
            match left {
                ParseOutcome::Parsed(l) => {
                    if t.len() - k >= 3 && width_of(t[k + 2]) == 1 {
                        let right_part = slice_of(t, k + 3, t.len());
                        assert(t@.skip(k + 3) =~= right_part@);
                        let right = parse_vec(&right_part);
                        match right {
                            ParseOutcome::Parsed(r) => {
                                return ParseOutcome::Parsed(
                                    FilterExpression::Or(Box::new(l), Box::new(r)),
                                );
                            },
                            other => {
                                return other;
                            },
                        }
                    } else {
                        return ParseOutcome::Panics;
                    }
                },
                other => {
                    return other;
                },
            }
        },
        OpResult::NotFound => {},
    }
    match and_scan {
        OpResult::Found(k) => {
            proof {
                lemma_find_op_found(t@, and_upper(), and_lower(), 0, 0);
            }
            let left_part = slice_of(t, 0, k);
            assert(t@.take(k as int) =~= left_part@);
            let left = parse_vec(&left_part);
            match left {
                ParseOutcome::Parsed(l) => {
                    let right_part = slice_of(t, k + 3, t.len());
                    assert(t@.skip(k + 3) =~= right_part@);
                    let right = parse_vec(&right_part);
                    match right {
                        ParseOutcome::Parsed(r) => {
                            ParseOutcome::Parsed(FilterExpression::And(Box::new(l), Box::new(r)))
                        },
                        other => other,
                    }
                },
                other => other,
            }
        },
        _ => comparison_vec(t),
    }
}

// ---------------------------------------------------------------------------
// Public interface
// ---------------------------------------------------------------------------

/// `res` is what the filter language gives, `p`, for an input on which the scanner does not panic.
pub open spec fn result_is(res: Result<FilterExpression, String>, p: Parse) -> bool {
    match p {
        Parse::Parsed(f) => res matches Ok(e) && filter_view(e) == f,
        Parse::Failed(m) => res matches Err(e) && e@ == m,
        Parse::Panics => false,
    }
}

/// The parser of the filter language.
pub struct FilterParser {}

impl FilterParser {
    pub fn new() -> Self {
        FilterParser {  }
    }

    /// Parses a filter expression. The inputs on which the scanner would
    /// slice inside a character (see `parse_filter`) are left out;
    /// `try_parse` reports them.
    pub fn parse(&mut self, input: &str) -> (res: Result<FilterExpression, String>)
        requires
            !(parse_filter(input@) is Panics),
        ensures
            result_is(res, parse_filter(input@)),
    {
        match self.try_parse(input) {
            Some(r) => r,
            None => Err(String::new()),
        }
    }

    /// Parses a filter expression; `None` exactly on the inputs on which the
    /// scanner would slice inside a character.
    pub fn try_parse(&mut self, input: &str) -> (res: Option<Result<FilterExpression, String>>)
        ensures
            res is None <==> parse_filter(input@) is Panics,
            res matches Some(r) ==> result_is(r, parse_filter(input@)),
    {
        let s = chars_of(input);
        let (a, b) = trim_bounds(&s, 0, s.len());
        assert(s@.subrange(0, s@.len() as int) =~= s@);
        if a == b {
            return Some(Err(owned("Empty filter expression")));
        }
        let t = slice_of(&s, a, b);
        match parse_vec(&t) {
            ParseOutcome::Parsed(e) => Some(Ok(e)),
            ParseOutcome::Failed(m) => Some(Err(m)),
            ParseOutcome::Panics => None,
        }
    }
}

// ---------------------------------------------------------------------------
// Evaluation
// ---------------------------------------------------------------------------

/// Whether `regex::Regex::new` accepts `pattern`.
pub uninterp spec fn regex_compiles(pattern: Seq<char>) -> bool;

/// Whether the regular expression compiled from `pattern` matches somewhere
/// in `text` (`regex::Regex::is_match`).
pub uninterp spec fn regex_matches(pattern: Seq<char>, text: Seq<char>) -> bool;

/// `regex::Regex::new` on `pattern`, then `is_match` on `text`; `None` when
/// the pattern does not compile. Which patterns compile and what they match
/// is left to the two names.
#[verifier::external_body]
fn regex_is_match(pattern: &str, text: &str) -> (res: Option<bool>)
    ensures
        match res {
            Some(m) => regex_compiles(pattern@) && m == regex_matches(pattern@, text@),
            None => !regex_compiles(pattern@),
        },
{
    match regex::Regex::new(pattern) {
        Ok(re) => Some(re.is_match(text)),
        Err(_) => None,
    }
}

/// Whether the pattern of a `~=` comparison matches `text`. A pattern that
/// does not compile stands for `^$`, which matches the empty text only.
pub open spec fn pattern_matches(pattern: Seq<char>, text: Seq<char>) -> bool {
    if regex_compiles(pattern) {
        regex_matches(pattern, text)
    } else {
        text.len() == 0
    }
}

/// The text of a field of process `p` as `=`, `!=` and `~=` compare it:
/// `name`, `user` (empty when unknown) and `status` as they are; `pid`,
/// `ppid` (0 without a parent), `nice` and `memory` (in whole MiB) in
/// decimal; `cpu` is the CPU share as the caller writes it with one decimal
/// (`cpu_text`); any other field is empty.
pub open spec fn field_text(p: ProcessView, field: Seq<char>, cpu_text: Seq<char>) -> Seq<char> {
    if field == "name"@ {
        p.name
    } else if field == "user"@ {
        match p.user {
            Some(u) => u,
            None => seq![],
        }
    } else if field == "status"@ {
        p.status
    } else if field == "pid"@ {
        decimal(p.pid as nat)
    } else if field == "ppid"@ {
        decimal(
            match p.parent_pid {
                Some(x) => x as nat,
                None => 0,
            },
        )
    } else if field == "nice"@ {
        signed_decimal(p.nice as int)
    } else if field == "cpu"@ {
        cpu_text
    } else if field == "memory"@ {
        decimal(p.memory_usage as nat / (1024 * 1024))
    } else {
        seq![]
    }
}

/// The number that a numeric comparison reads from a process: its CPU share
/// (an `f32`, by its bits) or a whole number.
#[derive(Clone, Copy, Debug, PartialEq, Eq, Structural)]
pub enum FieldNumber {
    Share(u32),
    Whole(i64),
}

/// What a numeric comparison reads for `field`: the PID; the parent's PID, 0
/// without a parent; the CPU share; the memory in whole MiB; the nice value;
/// 0 for any other field.
pub open spec fn field_number(p: ProcessView, field: Seq<char>) -> FieldNumber {
    if field == "pid"@ {
        FieldNumber::Whole(p.pid as i64)
    } else if field == "ppid"@ {
        FieldNumber::Whole(
            match p.parent_pid {
                Some(x) => x as i64,
                None => 0,
            },
        )
    } else if field == "cpu"@ {
        FieldNumber::Share(p.cpu_usage_bits)
    } else if field == "memory"@ {
        FieldNumber::Whole((p.memory_usage / 1_048_576u64) as i64)
    } else if field == "nice"@ {
        FieldNumber::Whole(p.nice as i64)
    } else {
        FieldNumber::Whole(0)
    }
}

/// How a numeric comparison compares the field with its number.
#[derive(Clone, Copy, Debug, PartialEq, Eq, Structural)]
pub enum NumericOp {
    Greater,
    Less,
    GreaterEqual,
    LessEqual,
}

/// The numeric comparisons of `f` from left to right: the field, the number
/// as written, and how they compare.
pub open spec fn numeric_comparisons(f: Filter) -> Seq<(Seq<char>, Seq<char>, NumericOp)>
    decreases f,
{
    match f {
        Filter::GreaterThan { field, value } => seq![(field, value, NumericOp::Greater)],
        Filter::LessThan { field, value } => seq![(field, value, NumericOp::Less)],
        Filter::GreaterEqual { field, value } => seq![(field, value, NumericOp::GreaterEqual)],
        Filter::LessEqual { field, value } => seq![(field, value, NumericOp::LessEqual)],
        Filter::And(l, r) => numeric_comparisons(*l) + numeric_comparisons(*r),
        Filter::Or(l, r) => numeric_comparisons(*l) + numeric_comparisons(*r),
        Filter::Not(x) => numeric_comparisons(*x),
        _ => seq![],
    }
}

/// Whether process `p` passes filter `f`. The numeric comparisons are made
/// on floating-point numbers by the caller: `numeric[k]` is the outcome of
/// the `k`-th of `numeric_comparisons(f)`.
pub open spec fn passes(f: Filter, p: ProcessView, cpu_text: Seq<char>, numeric: Seq<bool>) -> bool
    decreases f,
{
    match f {
        Filter::Equals { field, value } => field_text(p, field, cpu_text) == value,
        Filter::NotEquals { field, value } => field_text(p, field, cpu_text) != value,
        Filter::Regex { field, pattern } => pattern_matches(pattern, field_text(p, field, cpu_text)),
        Filter::GreaterThan { .. } => numeric[0],
        Filter::LessThan { .. } => numeric[0],
        Filter::GreaterEqual { .. } => numeric[0],
        Filter::LessEqual { .. } => numeric[0],
        Filter::And(l, r) => {
            let k = numeric_comparisons(*l).len() as int;
            passes(*l, p, cpu_text, numeric.take(k)) && passes(*r, p, cpu_text, numeric.skip(k))
        },
        Filter::Or(l, r) => {
            let k = numeric_comparisons(*l).len() as int;
            passes(*l, p, cpu_text, numeric.take(k)) || passes(*r, p, cpu_text, numeric.skip(k))
        },
        Filter::Not(x) => !passes(*x, p, cpu_text, numeric),
    }
}

/// Law: filters compose as boolean operators. A process passes `And(a, b)`
/// exactly when it passes both, `Or(a, b)` when it passes either, `Not(a)`
/// when it does not pass `a`; the numeric comparisons of a compound filter
/// are those of `a` followed by those of `b`, each part taking its own
/// outcomes.
pub proof fn lemma_filters_compose(a: Filter, b: Filter, p: ProcessView, cpu_text: Seq<char>, numeric: Seq<bool>)
    ensures
        numeric_comparisons(Filter::And(Box::new(a), Box::new(b))) == numeric_comparisons(a) + numeric_comparisons(b),
        numeric_comparisons(Filter::Or(Box::new(a), Box::new(b))) == numeric_comparisons(a) + numeric_comparisons(b),
        numeric_comparisons(Filter::Not(Box::new(a))) == numeric_comparisons(a),
        passes(Filter::And(Box::new(a), Box::new(b)), p, cpu_text, numeric) == (passes(
            a,
            p,
            cpu_text,
            numeric.take(numeric_comparisons(a).len() as int),
        ) && passes(b, p, cpu_text, numeric.skip(numeric_comparisons(a).len() as int))),
        passes(Filter::Or(Box::new(a), Box::new(b)), p, cpu_text, numeric) == (passes(
            a,
            p,
            cpu_text,
            numeric.take(numeric_comparisons(a).len() as int),
        ) || passes(b, p, cpu_text, numeric.skip(numeric_comparisons(a).len() as int))),
        passes(Filter::Not(Box::new(a)), p, cpu_text, numeric) == !passes(a, p, cpu_text, numeric),
{
}

/// Law: a comparison whose operator is `<` (none of `>=`, `<=`, `~=`, `==`,
/// `!=` and `>` occurs in it, and `<` first occurs at `k` of the trimmed
/// text) compares the field before the `<` (trimmed, in lower case) with the
/// number after it (trimmed and unquoted) by less-than. Its one numeric
/// comparison is `Less` on that field and number, and a process passes it
/// exactly when that comparison holds. When the text after `<` is no number,
/// the comparison is refused.
pub proof fn lemma_less_than_comparison(s: Seq<char>, k: int, p: ProcessView, cpu_text: Seq<char>, numeric: Seq<bool>)
    requires
        !contains(trim(s), seq!['>', '=']),
        !contains(trim(s), seq!['<', '=']),
        !contains(trim(s), seq!['~', '=']),
        !contains(trim(s), seq!['=', '=']),
        !contains(trim(s), seq!['!', '=']),
        !contains(trim(s), seq!['>']),
        find(trim(s), seq!['<']) == Some(k),
    ensures
        ({
            let field = lowercase(trim(trim(s).take(k)));
            let value = unquote(trim(s).skip(k + 1));
            &&& is_float_literal(value) ==> parse_comparison(s) == Parse::Parsed(
                Filter::LessThan { field, value },
            )
            &&& is_float_literal(value) ==> numeric_comparisons(Filter::LessThan { field, value })
                == seq![(field, value, NumericOp::Less)]
            &&& passes(Filter::LessThan { field, value }, p, cpu_text, numeric) == numeric[0]
            &&& !is_float_literal(value) ==> parse_comparison(s) is Failed
        }),
{
    reveal_with_fuel(comparison_from, 8);
}

/// Law: the operators of a comparison are tried in the order `>=`, `<=`,
/// `~=`, `==`, `!=`, `>`, `<`; the first that occurs decides, at its first
/// occurrence, what the comparison is. The field is the text before it
/// (trimmed, in lower case) and the value the text after it (trimmed and
/// unquoted); `>=`, `<=`, `>` and `<` need a number there.
pub proof fn lemma_comparison_operators(s: Seq<char>)
    ensures
        ({
            let t = trim(s);
            let field = |k: int| lowercase(trim(t.take(k)));
            let value = |k: int, n: int| unquote(t.skip(k + n));
            &&& find(t, seq!['>', '=']) matches Some(k) ==> (is_float_literal(value(k, 2)) ==> parse_comparison(s)
                == Parse::Parsed(Filter::GreaterEqual { field: field(k), value: value(k, 2) }))
            &&& !contains(t, seq!['>', '=']) ==> (find(t, seq!['<', '=']) matches Some(k) ==> (is_float_literal(
                value(k, 2),
            ) ==> parse_comparison(s) == Parse::Parsed(Filter::LessEqual { field: field(k), value: value(k, 2) })))
            &&& !contains(t, seq!['>', '=']) && !contains(t, seq!['<', '=']) ==> (find(t, seq!['~', '='])
                matches Some(k) ==> parse_comparison(s) == Parse::Parsed(
                Filter::Regex { field: field(k), pattern: value(k, 2) },
            ))
            &&& !contains(t, seq!['>', '=']) && !contains(t, seq!['<', '=']) && !contains(t, seq!['~', '='])
                ==> (find(t, seq!['=', '=']) matches Some(k) ==> parse_comparison(s) == Parse::Parsed(
                Filter::Equals { field: field(k), value: value(k, 2) },
            ))
            &&& !contains(t, seq!['>', '=']) && !contains(t, seq!['<', '=']) && !contains(t, seq!['~', '='])
                && !contains(t, seq!['=', '=']) ==> (find(t, seq!['!', '=']) matches Some(k) ==> parse_comparison(s)
                == Parse::Parsed(Filter::NotEquals { field: field(k), value: value(k, 2) }))
            &&& !contains(t, seq!['>', '=']) && !contains(t, seq!['<', '=']) && !contains(t, seq!['~', '='])
                && !contains(t, seq!['=', '=']) && !contains(t, seq!['!', '=']) ==> (find(t, seq!['>']) matches Some(k)
                ==> (is_float_literal(value(k, 1)) ==> parse_comparison(s) == Parse::Parsed(
                Filter::GreaterThan { field: field(k), value: value(k, 1) },
            )))
        }),
{
    reveal_with_fuel(comparison_from, 8);
}

/// Law: each numeric comparison asks the caller for its own operator on its
/// field and number: `>` for greater-than, `<` for less-than, `>=` and `<=`
/// likewise; the other comparisons ask for none.
pub proof fn lemma_numeric_operators(field: Seq<char>, value: Seq<char>)
    ensures
        numeric_comparisons(Filter::GreaterThan { field, value }) == seq![(field, value, NumericOp::Greater)],
        numeric_comparisons(Filter::LessThan { field, value }) == seq![(field, value, NumericOp::Less)],
        numeric_comparisons(Filter::GreaterEqual { field, value }) == seq![(field, value, NumericOp::GreaterEqual)],
        numeric_comparisons(Filter::LessEqual { field, value }) == seq![(field, value, NumericOp::LessEqual)],
        numeric_comparisons(Filter::Equals { field, value }).len() == 0,
        numeric_comparisons(Filter::NotEquals { field, value }).len() == 0,
        numeric_comparisons(Filter::Regex { field, pattern: value }).len() == 0,
{
}

proof fn lemma_trim_end_keeps_head(s: Seq<char>)
    ensures
        trim_end(s).len() > 0 ==> trim_end(s)[0] == s[0],
        trim_end(s).len() > 0 ==> !is_ws(trim_end(s).last()),
    decreases s.len(),
{
    if s.len() > 0 && is_ws(s.last()) {
        lemma_trim_end_keeps_head(s.drop_last());
    }
}

/// Trimming twice is trimming once.
proof fn lemma_trim_twice(s: Seq<char>)
    ensures
        trim(trim(s)) == trim(s),
{
    let t = trim(s);
    if t.len() > 0 {
        crate::text::lemma_trim_start_head(s);
        lemma_trim_end_keeps_head(trim_start(s));
        crate::text::lemma_trim_of_trimmed(t);
    }
}

/// Law: a filter that is neither negated nor wrapped in parentheses and has
/// no top-level `AND` or `OR` is a single comparison.
pub proof fn lemma_plain_filter_is_comparison(input: Seq<char>)
    requires
        trim(input).len() > 0,
        !starts_with(trim(input), seq!['N', 'O', 'T', ' ']),
        !starts_with(trim(input), seq!['n', 'o', 't', ' ']),
        !is_paren_wrapped(trim(input)),
        find_op_from(trim(input), and_upper(), and_lower(), 0, 0) is NotFound,
        find_op_from(trim(input), or_upper(), or_lower(), 0, 0) is NotFound,
    ensures
        parse_filter(input) == parse_comparison(trim(input)),
{
    let t = trim(input);
    lemma_trim_twice(input);
    assert(trim(t) == t);
    assert(parse_connectives(t) == parse_comparison(t));
    assert(parse_expr(t) == parse_connectives(t));
}

/// The models of a list of numeric comparisons.
pub open spec fn comparisons_view(v: Seq<(String, String, NumericOp)>) -> Seq<(Seq<char>, Seq<char>, NumericOp)> {
    v.map_values(|c: (String, String, NumericOp)| (c.0@, c.1@, c.2))
}

fn field_text_of(p: &ProcessInfo, field: &str, cpu_text: &str) -> (res: String)
    ensures
        res@ == field_text(p@, field@, cpu_text@),
{
    if str_eq(field, "name") {
        owned(p.name.as_str())
    } else if str_eq(field, "user") {
        match &p.user {
            Some(u) => owned(u.as_str()),
            None => String::new(),
        }
    } else if str_eq(field, "status") {
        owned(p.status.as_str())
    } else if str_eq(field, "pid") {
        decimal_string(p.pid as u64)
    } else if str_eq(field, "ppid") {
        decimal_string(
            match p.parent_pid {
                Some(x) => x as u64,
                None => 0,
            },
        )
    } else if str_eq(field, "nice") {
        i32_string(p.nice)
    } else if str_eq(field, "cpu") {
        owned(cpu_text)
    } else if str_eq(field, "memory") {
        decimal_string(p.memory_usage / (1024 * 1024))
    } else {
        String::new()
    }
}

fn collect_comparisons(e: &FilterExpression, out: &mut Vec<(String, String, NumericOp)>)
    ensures
        comparisons_view(final(out)@) == comparisons_view(old(out)@) + numeric_comparisons(
            filter_view(*e),
        ),
    decreases e,
{
    let ghost before = comparisons_view(out@);
    let leaf = match e {
        FilterExpression::FieldGreaterThan { field, value } => Some((field, value, NumericOp::Greater)),
        FilterExpression::FieldLessThan { field, value } => Some((field, value, NumericOp::Less)),
        FilterExpression::FieldGreaterEqual { field, value } => Some(
            (field, value, NumericOp::GreaterEqual),
        ),
        FilterExpression::FieldLessEqual { field, value } => Some((field, value, NumericOp::LessEqual)),
        _ => None,
    };
    match leaf {
        Some((field, value, op)) => {
            out.push((owned(field.as_str()), owned(value.as_str()), op));
            assert(comparisons_view(out@) =~= before + numeric_comparisons(filter_view(*e)));
        },
        None => match e {
            FilterExpression::And(l, r) | FilterExpression::Or(l, r) => {
                collect_comparisons(l, out);
                collect_comparisons(r, out);
                assert(comparisons_view(out@) =~= before + numeric_comparisons(filter_view(*e)));
            },
            FilterExpression::Not(x) => {
                collect_comparisons(x, out);
            },
            _ => {
                assert(comparisons_view(out@) =~= before + numeric_comparisons(filter_view(*e)));
            },
        },
    }
}

fn comparison_count(e: &FilterExpression) -> (res: usize)
    requires
        numeric_comparisons(filter_view(*e)).len() <= usize::MAX,
    ensures
        res == numeric_comparisons(filter_view(*e)).len(),
    decreases e,
{
    match e {
        FilterExpression::FieldGreaterThan { .. } => 1,
        FilterExpression::FieldLessThan { .. } => 1,
        FilterExpression::FieldGreaterEqual { .. } => 1,
        FilterExpression::FieldLessEqual { .. } => 1,
        FilterExpression::And(l, r) | FilterExpression::Or(l, r) => {
            comparison_count(l) + comparison_count(r)
        },
        FilterExpression::Not(x) => comparison_count(x),
        _ => 0,
    }
}

fn passes_from(
    e: &FilterExpression,
    p: &ProcessInfo,
    cpu_text: &str,
    numeric: &Vec<bool>,
    start: usize,
) -> (res: bool)
    requires
        start + numeric_comparisons(filter_view(*e)).len() <= numeric.len(),
    ensures
        res == passes(
            filter_view(*e),
            p@,
            cpu_text@,
            numeric@.subrange(start as int, start + numeric_comparisons(filter_view(*e)).len()),
        ),
    decreases e,
{
    let ghost n = numeric_comparisons(filter_view(*e)).len();
    let ghost window = numeric@.subrange(start as int, start + n);
    match e {
        FilterExpression::FieldEquals { field, value } => str_eq(
            field_text_of(p, field.as_str(), cpu_text).as_str(),
            value.as_str(),
        ),
        FilterExpression::FieldNotEquals { field, value } => !str_eq(
            field_text_of(p, field.as_str(), cpu_text).as_str(),
            value.as_str(),
        ),
        FilterExpression::FieldRegex { field, pattern } => {
            let text = field_text_of(p, field.as_str(), cpu_text);
            match regex_is_match(pattern.as_str(), text.as_str()) {
                Some(m) => m,
                None => chars_of(text.as_str()).len() == 0,
            }
        },
        FilterExpression::FieldGreaterThan { .. } | FilterExpression::FieldLessThan { .. }
        | FilterExpression::FieldGreaterEqual { .. } | FilterExpression::FieldLessEqual { .. } => {
            assert(window[0] == numeric@[start as int]);
            numeric[start]
        },
        FilterExpression::And(l, r) => {
            let k = comparison_count(l);
            assert(window.take(k as int) =~= numeric@.subrange(start as int, start + k));
            assert(window.skip(k as int) =~= numeric@.subrange(
                start + k,
                start + k + numeric_comparisons(filter_view(**r)).len(),
            ));
            passes_from(l, p, cpu_text, numeric, start) && passes_from(r, p, cpu_text, numeric, start + k)
        },
        FilterExpression::Or(l, r) => {
            let k = comparison_count(l);
            assert(window.take(k as int) =~= numeric@.subrange(start as int, start + k));
            assert(window.skip(k as int) =~= numeric@.subrange(
                start + k,
                start + k + numeric_comparisons(filter_view(**r)).len(),
            ));
            passes_from(l, p, cpu_text, numeric, start) || passes_from(r, p, cpu_text, numeric, start + k)
        },
        FilterExpression::Not(x) => !passes_from(x, p, cpu_text, numeric, start),
    }
}

impl FilterParser {
    /// The number that a numeric comparison on `field` reads from `process`
    /// (see `field_number`); the caller compares it as floating point.
    pub fn numeric_field(&self, process: &ProcessInfo, field: &str) -> (res: FieldNumber)
        ensures
            res == field_number(process@, field@),
    {
        if str_eq(field, "pid") {
            FieldNumber::Whole(process.pid as i64)
        } else if str_eq(field, "ppid") {
            FieldNumber::Whole(
                match process.parent_pid {
                    Some(x) => x as i64,
                    None => 0,
                },
            )
        } else if str_eq(field, "cpu") {
            FieldNumber::Share(process.cpu_usage_bits)
        } else if str_eq(field, "memory") {
            FieldNumber::Whole((process.memory_usage / 1_048_576) as i64)
        } else if str_eq(field, "nice") {
            FieldNumber::Whole(process.nice as i64)
        } else {
            FieldNumber::Whole(0)
        }
    }

    /// The numeric comparisons of `expr` from left to right, for the caller
    /// to decide before it calls `evaluate`.
    pub fn numeric_comparisons(&self, expr: &FilterExpression) -> (res: Vec<(String, String, NumericOp)>)
        ensures
            comparisons_view(res@) == numeric_comparisons(filter_view(*expr)),
    {
        let mut out: Vec<(String, String, NumericOp)> = Vec::new();
        collect_comparisons(expr, &mut out);
        assert(comparisons_view(Seq::<(String, String, NumericOp)>::empty()) =~= seq![]);
        assert(seq![] + numeric_comparisons(filter_view(*expr)) =~= numeric_comparisons(
            filter_view(*expr),
        ));
        out
    }

    /// Whether `process` passes `expr` (see `passes`): `cpu_text` is its CPU
    /// share written with one decimal, and `numeric[k]` the outcome of the
    /// `k`-th of `numeric_comparisons(expr)` on it.
    pub fn evaluate(
        &self,
        process: &ProcessInfo,
        expr: &FilterExpression,
        cpu_text: &str,
        numeric: &Vec<bool>,
    ) -> (res: bool)
        requires
            numeric.len() == numeric_comparisons(filter_view(*expr)).len(),
        ensures
            res == passes(filter_view(*expr), process@, cpu_text@, numeric@),
    {
        assert(numeric@.subrange(0, numeric.len() as int) =~= numeric@);
        passes_from(expr, process, cpu_text, numeric, 0)
    }
}

} // verus!
