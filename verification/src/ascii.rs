//! Byte-level building blocks of the wire grammar: searching for separators,
//! trimming blanks, folding case and reading decimal numbers.
//!
//! Every specification here is a function of a byte sequence. Positions are
//! found by scanning from the left, so "the first" always means the smallest
//! index.

use vstd::prelude::*;

verus! {

/// Carriage return.
pub const CR: u8 = 13;

/// Line feed.
pub const LF: u8 = 10;

/// The space that parts the tokens of a start line.
pub const SPACE: u8 = 32;

/// The colon that parts the name of a header from its value.
pub const COLON: u8 = 58;

/// The plus sign.
pub const PLUS: u8 = 43;

/// The digit zero.
pub const ZERO: u8 = 48;

/// Blank bytes: the space and the control characters from tab to carriage return.
pub open spec fn is_blank(b: u8) -> bool {
    b == 32 || (9 <= b && b <= 13)
}

/// Decimal digits.
pub open spec fn is_digit(b: u8) -> bool {
    48 <= b && b <= 57
}

/// The byte with an upper-case ASCII letter replaced by its lower-case form.
pub open spec fn lower(b: u8) -> u8 {
    if 65 <= b && b <= 90 {
        (b + 32) as u8
    } else {
        b
    }
}

/// The sequence with every upper-case ASCII letter in lower case.
pub open spec fn lowercase(s: Seq<u8>) -> Seq<u8> {
    Seq::new(s.len(), |i: int| lower(s[i]))
}

/// The first index at or after `i` that holds the byte `b`.
pub open spec fn position_from(s: Seq<u8>, b: u8, i: int) -> Option<int>
    decreases s.len() - i,
{
    if i < 0 || i >= s.len() {
        None
    } else if s[i] == b {
        Some(i)
    } else {
        position_from(s, b, i + 1)
    }
}

/// The index of the first byte `b` in `s`.
pub open spec fn position(s: Seq<u8>, b: u8) -> Option<int> {
    position_from(s, b, 0)
}

/// The parts that the byte `b` parts `s` into, in order: what stands before
/// the first `b`, then the parts of what follows it. A sequence without a `b`
/// is one part.
pub open spec fn split(s: Seq<u8>, b: u8) -> Seq<Seq<u8>>
    decreases s.len(),
    via split_decreases
{
    match position(s, b) {
        None => seq![s],
        Some(i) => seq![s.take(i)] + split(s.skip(i + 1), b),
    }
}

#[via_fn]
proof fn split_decreases(s: Seq<u8>, b: u8) {
    lemma_position_from(s, b, 0);
}

/// Whether a carriage return followed by a line feed starts at index `i`.
pub open spec fn crlf_at(s: Seq<u8>, i: int) -> bool {
    0 <= i && i + 1 < s.len() && s[i] == CR && s[i + 1] == LF
}

/// The first index at or after `i` where a CRLF starts.
pub open spec fn line_end_from(s: Seq<u8>, i: int) -> Option<int>
    decreases s.len() - i,
{
    if i < 0 || i + 1 >= s.len() {
        None
    } else if crlf_at(s, i) {
        Some(i)
    } else {
        line_end_from(s, i + 1)
    }
}

/// The length of the first line of `s`: the index where its first CRLF starts.
pub open spec fn line_end(s: Seq<u8>) -> Option<int> {
    line_end_from(s, 0)
}

/// The first index at or after `i` that holds a byte that is not blank, or
/// the length of `s` if there is none.
pub open spec fn text_start_from(s: Seq<u8>, i: int) -> int
    decreases s.len() - i,
{
    if i < 0 || i >= s.len() {
        s.len() as int
    } else if is_blank(s[i]) {
        text_start_from(s, i + 1)
    } else {
        i
    }
}

/// The end of the last byte before `j` that is not blank, but not less than `start`.
pub open spec fn text_end_from(s: Seq<u8>, start: int, j: int) -> int
    decreases j - start,
{
    if j <= start || j > s.len() {
        start
    } else if is_blank(s[j - 1]) {
        text_end_from(s, start, j - 1)
    } else {
        j
    }
}

/// Where the text of `s` starts once leading blanks are dropped.
pub open spec fn text_start(s: Seq<u8>) -> int {
    text_start_from(s, 0)
}

/// Where the text of `s` ends once trailing blanks are dropped.
pub open spec fn text_end(s: Seq<u8>) -> int {
    text_end_from(s, text_start(s), s.len() as int)
}

/// The sequence without its leading and trailing blanks.
pub open spec fn trimmed(s: Seq<u8>) -> Seq<u8> {
    s.subrange(text_start(s), text_end(s))
}

/// Whether `s` is a non-empty run of decimal digits.
pub open spec fn is_decimal(s: Seq<u8>) -> bool {
    s.len() > 0 && forall|i: int| 0 <= i < s.len() ==> is_digit(#[trigger] s[i])
}

/// The number that the first `n` digits of `s` spell in base ten.
pub open spec fn decimal_prefix_value(s: Seq<u8>, n: int) -> nat
    decreases n,
{
    if n <= 0 {
        0
    } else {
        decimal_prefix_value(s, n - 1) * 10 + (s[n - 1] - ZERO) as nat
    }
}

/// The number that the digits of `s` spell in base ten.
pub open spec fn decimal_value(s: Seq<u8>) -> nat {
    decimal_prefix_value(s, s.len() as int)
}

/// The digits of a length field: the field itself, without one leading plus sign.
pub open spec fn unsigned_digits(s: Seq<u8>) -> Seq<u8> {
    if s.len() > 0 && s[0] == PLUS {
        s.subrange(1, s.len() as int)
    } else {
        s
    }
}

/// The value of a length field: a non-empty run of decimal digits, which one
/// plus sign may precede, spelling a number that fits the machine's `usize`.
pub open spec fn length_value(s: Seq<u8>) -> Option<nat> {
    let digits = unsigned_digits(s);
    if is_decimal(digits) && decimal_value(digits) <= usize::MAX {
        Some(decimal_value(digits))
    } else {
        None
    }
}

/// A found position lies at or after the start of the scan, holds the byte,
/// and no earlier position of the scan does.
pub proof fn lemma_position_from(s: Seq<u8>, b: u8, i: int)
    requires
        0 <= i,
    ensures
        match position_from(s, b, i) {
            Some(p) => i <= p < s.len() && s[p] == b && forall|j: int| i <= j < p ==> s[j] != b,
            None => forall|j: int| i <= j < s.len() ==> s[j] != b,
        },
    decreases s.len() - i,
{
    if i < s.len() && s[i] != b {
        lemma_position_from(s, b, i + 1);
    }
}

/// A sequence has at least one part, and no part holds the byte that parts
/// them.
pub proof fn lemma_split(s: Seq<u8>, b: u8)
    ensures
        split(s, b).len() >= 1,
        forall|k: int, j: int|
            0 <= k < split(s, b).len() && 0 <= j < split(s, b)[k].len() ==> split(s, b)[k][j] != b,
    decreases s.len(),
{
    lemma_position_from(s, b, 0);
    if let Some(i) = position(s, b) {
        lemma_split(s.skip(i + 1), b);
        let others = split(s.skip(i + 1), b);
        assert forall|k: int, j: int|
            0 <= k < split(s, b).len() && 0 <= j < split(s, b)[k].len() implies split(
            s,
            b,
        )[k][j] != b by {
            if k > 0 {
                assert(split(s, b)[k] == others[k - 1]);
            }
        }
    }
}

/// The first CRLF of a scan lies at or after its start, and no CRLF starts
/// between the start and it.
pub proof fn lemma_line_end_from(s: Seq<u8>, i: int)
    requires
        0 <= i,
    ensures
        match line_end_from(s, i) {
            Some(p) => i <= p && crlf_at(s, p) && forall|j: int| i <= j < p ==> !crlf_at(s, j),
            None => forall|j: int| i <= j ==> !crlf_at(s, j),
        },
    decreases s.len() - i,
{
    if i + 1 < s.len() && !crlf_at(s, i) {
        lemma_line_end_from(s, i + 1);
    }
}

/// The text of a sequence lies within it; what stands before it and after it
/// is blank; and where it is not empty it starts and ends with a byte that is
/// not blank.
pub proof fn lemma_text_bounds(s: Seq<u8>)
    ensures
        0 <= text_start(s) <= text_end(s) <= s.len(),
        forall|j: int| 0 <= j < text_start(s) ==> is_blank(#[trigger] s[j]),
        forall|j: int| text_end(s) <= j < s.len() ==> is_blank(#[trigger] s[j]),
        text_start(s) < text_end(s) ==> !is_blank(s[text_start(s)]) && !is_blank(
            s[text_end(s) - 1],
        ),
{
    lemma_text_start_from(s, 0);
    lemma_text_end_from(s, text_start(s), s.len() as int);
}

proof fn lemma_text_start_from(s: Seq<u8>, i: int)
    requires
        0 <= i <= s.len(),
    ensures
        i <= text_start_from(s, i) <= s.len(),
        forall|j: int| i <= j < text_start_from(s, i) ==> is_blank(#[trigger] s[j]),
        text_start_from(s, i) < s.len() ==> !is_blank(s[text_start_from(s, i)]),
    decreases s.len() - i,
{
    if i < s.len() && is_blank(s[i]) {
        lemma_text_start_from(s, i + 1);
    }
}

proof fn lemma_text_end_from(s: Seq<u8>, start: int, j: int)
    requires
        0 <= start <= j <= s.len(),
    ensures
        start <= text_end_from(s, start, j) <= j,
        forall|k: int| text_end_from(s, start, j) <= k < j ==> is_blank(#[trigger] s[k]),
        start < text_end_from(s, start, j) ==> !is_blank(s[text_end_from(s, start, j) - 1]),
    decreases j - start,
{
    if j > start && is_blank(s[j - 1]) {
        lemma_text_end_from(s, start, j - 1);
    }
}

/// Trimming what is trimmed changes nothing.
pub proof fn lemma_trimmed_is_trimmed(s: Seq<u8>)
    ensures
        trimmed(trimmed(s)) == trimmed(s),
{
    lemma_text_bounds(s);
    let t = trimmed(s);
    if t.len() == 0 {
        assert(trimmed(t) =~= t);
    } else {
        assert(t[0] == s[text_start(s)]);
        assert(t[t.len() - 1] == s[text_end(s) - 1]);
        assert(text_start(t) == 0);
        assert(text_end(t) == t.len());
        assert(trimmed(t) =~= t);
    }
}

proof fn lemma_lowercase_text_start(s: Seq<u8>, i: int)
    requires
        0 <= i,
    ensures
        text_start_from(lowercase(s), i) == text_start_from(s, i),
    decreases s.len() - i,
{
    if i < s.len() && is_blank(s[i]) {
        lemma_lowercase_text_start(s, i + 1);
    }
}

proof fn lemma_lowercase_text_end(s: Seq<u8>, start: int, j: int)
    requires
        0 <= start,
    ensures
        text_end_from(lowercase(s), start, j) == text_end_from(s, start, j),
    decreases j - start,
{
    if start < j && j <= s.len() && is_blank(s[j - 1]) {
        lemma_lowercase_text_end(s, start, j - 1);
    }
}

/// Folding case and trimming can be done in either order.
pub proof fn lemma_lowercase_trimmed(s: Seq<u8>)
    ensures
        trimmed(lowercase(s)) == lowercase(trimmed(s)),
{
    lemma_text_bounds(s);
    lemma_lowercase_text_start(s, 0);
    lemma_lowercase_text_end(s, text_start(s), s.len() as int);
    assert(trimmed(lowercase(s)) =~= lowercase(trimmed(s)));
}

/// Folding the case of what is in lower case changes nothing.
pub proof fn lemma_lowercase_is_lowercase(s: Seq<u8>)
    ensures
        lowercase(lowercase(s)) == lowercase(s),
{
    assert(lowercase(lowercase(s)) =~= lowercase(s));
}

/// A longer prefix of a run of digits spells a number that is no smaller.
pub proof fn lemma_decimal_prefix_grows(s: Seq<u8>, n: int, m: int)
    requires
        0 <= n <= m <= s.len(),
        forall|i: int| 0 <= i < s.len() ==> is_digit(#[trigger] s[i]),
    ensures
        decimal_prefix_value(s, n) <= decimal_prefix_value(s, m),
    decreases m,
{
    if n < m {
        lemma_decimal_prefix_grows(s, n, m - 1);
        assert(is_digit(s[m - 1]));
    }
}

/// Whether `b` is a blank byte.
pub fn is_blank_byte(b: u8) -> (r: bool)
    ensures
        r == is_blank(b),
{
    b == 32 || (9 <= b && b <= 13)
}

/// The byte with an upper-case ASCII letter replaced by its lower-case form.
pub fn to_lower(b: u8) -> (r: u8)
    ensures
        r == lower(b),
{
    if 65 <= b && b <= 90 {
        b + 32
    } else {
        b
    }
}

/// Finds the first byte `b` in `s`: the index that holds it and that no index
/// holding it comes before.
pub fn find_byte(s: &[u8], b: u8) -> (r: Option<usize>)
    ensures
        match r {
            Some(i) => position(s@, b) == Some(i as int) && i < s.len() && s@[i as int] == b
                && forall|j: int| 0 <= j < i ==> s@[j] != b,
            None => position(s@, b) is None && forall|j: int| 0 <= j < s.len() ==> s@[j] != b,
        },
{
    let mut i: usize = 0;
    while i < s.len()
        invariant
            i <= s.len(),
            position(s@, b) == position_from(s@, b, i as int),
        decreases s.len() - i,
    {
        if s[i] == b {
            proof {
                lemma_position_from(s@, b, 0);
            }
            return Some(i);
        }
        i += 1;
    }
    proof {
        lemma_position_from(s@, b, 0);
    }
    None
}

/// Finds the end of the first line of `s`: the index where a CRLF starts and
/// that no index where one starts comes before.
pub fn find_line_end(s: &[u8]) -> (r: Option<usize>)
    ensures
        match r {
            Some(i) => line_end(s@) == Some(i as int) && i + 2 <= s.len() && crlf_at(s@, i as int)
                && forall|j: int| 0 <= j < i ==> !crlf_at(s@, j),
            None => line_end(s@) is None && forall|j: int| 0 <= j ==> !crlf_at(s@, j),
        },
{
    let mut i: usize = 0;
    while i < s.len() && i + 1 < s.len()
        invariant
            i <= s.len(),
            line_end(s@) == line_end_from(s@, i as int),
        decreases s.len() - i,
    {
        if s[i] == CR && s[i + 1] == LF {
            proof {
                lemma_line_end_from(s@, 0);
            }
            return Some(i);
        }
        i += 1;
    }
    proof {
        lemma_line_end_from(s@, 0);
    }
    None
}

/// Drops the leading and trailing blanks of `s`.
pub fn trim(s: &[u8]) -> (r: &[u8])
    ensures
        r@ == trimmed(s@),
{
    let n: usize = s.len();
    let mut a: usize = 0;
    while a < n && is_blank_byte(s[a])
        invariant
            n == s.len(),
            a <= n,
            text_start(s@) == text_start_from(s@, a as int),
        decreases n - a,
    {
        a += 1;
    }
    let mut b: usize = n;
    while a < b && is_blank_byte(s[b - 1])
        invariant
            n == s.len(),
            a <= b <= n,
            a == text_start(s@),
            text_end(s@) == text_end_from(s@, a as int, b as int),
        decreases b - a,
    {
        b -= 1;
    }
    &s[a..b]
}

/// Copies `s` with every upper-case ASCII letter in lower case.
pub fn to_lowercase(s: &[u8]) -> (r: Vec<u8>)
    ensures
        r@ == lowercase(s@),
{
    let mut out: Vec<u8> = Vec::new();
    let mut i: usize = 0;
    while i < s.len()
        invariant
            i <= s.len(),
            out@.len() == i,
            forall|j: int| 0 <= j < i ==> out@[j] == lower(s@[j]),
        decreases s.len() - i,
    {
        out.push(to_lower(s[i]));
        i += 1;
    }
    assert(out@ =~= lowercase(s@));
    out
}

/// Whether two byte strings hold the same bytes.
pub fn same_bytes(a: &[u8], b: &[u8]) -> (r: bool)
    ensures
        r == (a@ == b@),
{
    if a.len() != b.len() {
        return false;
    }
    let mut i: usize = 0;
    while i < a.len()
        invariant
            i <= a.len(),
            a.len() == b.len(),
            forall|j: int| 0 <= j < i ==> a@[j] == b@[j],
        decreases a.len() - i,
    {
        if a[i] != b[i] {
            return false;
        }
        i += 1;
    }
    assert(a@ =~= b@);
    true
}

/// Reads a length field.
pub fn parse_length(s: &[u8]) -> (r: Option<usize>)
    ensures
        match r {
            Some(n) => length_value(s@) == Some(n as nat),
            None => length_value(s@) is None,
        },
{
    let start: usize = if s.len() > 0 && s[0] == PLUS {
        1
    } else {
        0
    };
    let digits: &[u8] = &s[start..s.len()];
    assert(digits@ == unsigned_digits(s@));
    let n: usize = digits.len();
    if n == 0 {
        return None;
    }
    let mut value: usize = 0;
    let mut i: usize = 0;
    while i < n
        invariant
            n == digits.len(),
            0 < n,
            i <= n,
            digits@ == unsigned_digits(s@),
            forall|j: int| 0 <= j < i ==> is_digit(#[trigger] digits@[j]),
            value == decimal_prefix_value(digits@, i as int),
        decreases n - i,
    {
        let b: u8 = digits[i];
        if b < 48 || b > 57 {
            return None;
        }
        let next: Option<usize> = match value.checked_mul(10) {
            Some(tens) => tens.checked_add((b - 48) as usize),
            None => None,
        };
        match next {
            Some(v) => {
                value = v;
            },
            None => {
                proof {
                    if is_decimal(digits@) {
                        lemma_decimal_prefix_grows(digits@, i as int + 1, n as int);
                    }
                }
                return None;
            },
        }
        i += 1;
    }
    Some(value)
}

} // verus!
