//! Characters of an expression: whitespace, numerals, and the normalizing
//! rewrite that turns informal notation into a canonical character stream.
use vstd::prelude::*;
use crate::error::{ErrorKind, SyntaxError};
use vstd::string::StrSliceExecFns;

verus! {

/// Whitespace skipped by normalization: the Unicode `White_Space` set.
pub open spec fn is_space(c: char) -> bool {
    ('\u{9}' <= c && c <= '\u{D}') || c == ' ' || c == '\u{85}' || c == '\u{A0}' || c == '\u{1680}' || (
    '\u{2000}' <= c && c <= '\u{200A}') || c == '\u{2028}' || c == '\u{2029}' || c == '\u{202F}' || c
        == '\u{205F}' || c == '\u{3000}'
}

pub open spec fn is_digit(c: char) -> bool {
    '0' <= c && c <= '9'
}

/// Characters after which a `(` means multiplication.
pub open spec fn ends_factor(c: char) -> bool {
    is_digit(c) || c == '.' || c == '%'
}

/// What one input character becomes, given the last non-whitespace character
/// before it (`' '` at the start).
pub open spec fn emit(c: char, prev: char) -> Seq<char> {
    if is_space(c) {
        seq![]
    } else if c == '%' {
        seq!['1', '0', '0']
    } else if c == 'x' || c == 'X' {
        seq!['*']
    } else if c == '-' && prev != '+' && prev != '/' && prev != '*' {
        seq!['+', '-']
    } else if c == '(' && ends_factor(prev) {
        seq!['*', '(']
    } else {
        seq![c]
    }
}

/// The last character of `s` that is not whitespace, or `' '`.
pub open spec fn last_nonspace(s: Seq<char>) -> char
    decreases s.len(),
{
    if s.len() == 0 {
        ' '
    } else if is_space(s.last()) {
        last_nonspace(s.drop_last())
    } else {
        s.last()
    }
}

/// The first character of `s` that is not whitespace, or `' '`.
pub open spec fn first_nonspace(s: Seq<char>) -> char
    decreases s.len(),
{
    if s.len() == 0 {
        ' '
    } else if is_space(s[0]) {
        first_nonspace(s.drop_first())
    } else {
        s[0]
    }
}

/// Each character of `s` rewritten by `emit`, in order.
pub open spec fn rewrite(s: Seq<char>) -> Seq<char>
    decreases s.len(),
{
    if s.len() == 0 {
        seq![]
    } else {
        rewrite(s.drop_last()) + emit(s.last(), last_nonspace(s.drop_last()))
    }
}

/// An expression that starts with a sign gets a leading `0`.
pub open spec fn with_lead(s: Seq<char>) -> Seq<char> {
    if first_nonspace(s) == '+' || first_nonspace(s) == '-' {
        seq!['0'] + s
    } else {
        s
    }
}

/// The canonical form of an expression.
pub open spec fn canonical(s: Seq<char>) -> Seq<char> {
    rewrite(with_lead(s))
}

/// 1-based line and column of the character at index `i` of `s`.
pub open spec fn line_col(s: Seq<char>, i: int) -> (int, int)
    decreases i,
{
    if i <= 0 {
        (1, 1)
    } else if s[i - 1] == '\n' {
        (line_col(s, i - 1).0 + 1, 1)
    } else {
        (line_col(s, i - 1).0, line_col(s, i - 1).1 + 1)
    }
}

/// The index of the first `.` in `s`.
pub open spec fn is_first_dot(s: Seq<char>, i: int) -> bool {
    0 <= i < s.len() && s[i] == '.' && forall|j: int| 0 <= j < i ==> s[j] != '.'
}

/// Whether `s` holds a `.`.
pub open spec fn has_dot(s: Seq<char>) -> bool {
    exists|j: int| 0 <= j < s.len() && #[trigger] s[j] == '.'
}

/// `err` gives the line and column of the first `.` of `s`.
pub open spec fn dot_reported(s: Seq<char>, err: SyntaxError) -> bool {
    exists|i: int|
        #[trigger] is_first_dot(s, i) && err.line == Some(line_col(s, i).0 as u64) && err.col == Some(
            line_col(s, i).1 as u64,
        )
}

/// The characters of a string.
pub fn chars_of(s: &str) -> (r: Vec<char>)
    ensures
        r@ == s@,
{
    let n = s.unicode_len();
    let mut r: Vec<char> = Vec::new();
    let mut i: usize = 0;
    while i < n
        invariant
            n == s@.len(),
            i <= n,
            r@ == s@.take(i as int),
        decreases n - i,
    {
        r.push(s.get_char(i));
        i = i + 1;
        assert(r@ =~= s@.take(i as int));
    }
    assert(r@ =~= s@);
    r
}

fn is_space_char(c: char) -> (r: bool)
    ensures
        r == is_space(c),
{
    ('\u{9}' <= c && c <= '\u{D}') || c == ' ' || c == '\u{85}' || c == '\u{A0}' || c == '\u{1680}' || (
    '\u{2000}' <= c && c <= '\u{200A}') || c == '\u{2028}' || c == '\u{2029}' || c == '\u{202F}' || c
        == '\u{205F}' || c == '\u{3000}'
}

/// Normalizes an expression: drops whitespace, writes `%` as `100` and `x` or
/// `X` as `*`, turns a subtraction `a-b` into `a+-b`, makes a number directly
/// before `(` a multiplication, and puts `0` before a leading sign. Unless
/// `allow_decimal`, a `.` is refused with its line and column.
pub fn normalize(s: &Vec<char>, allow_decimal: bool) -> (r: Result<Vec<char>, SyntaxError>)
    ensures
        r is Ok <==> (allow_decimal || !has_dot(s@)),
        r is Ok ==> r->Ok_0@ == canonical(s@),
        r is Err ==> r->Err_0.kind == ErrorKind::DecimalNotAllowed && dot_reported(s@, r->Err_0),
{
    if !allow_decimal {
        let mut line: u128 = 1;
        let mut col: u128 = 1;
        let mut i: usize = 0;
        while i < s.len()
            invariant
                !allow_decimal,
                i <= s@.len(),
                forall|j: int| 0 <= j < i ==> s@[j] != '.',
                line as int == line_col(s@, i as int).0,
                col as int == line_col(s@, i as int).1,
                line <= i + 1,
                col <= i + 1,
            decreases s.len() - i,
        {
            if s[i] == '.' {
                let e = SyntaxError {
                    kind: ErrorKind::DecimalNotAllowed,
                    msg: Some("found '.', but only integer arithmetic is supported here".to_string()),
                    line: Some(line as u64),
                    col: Some(col as u64),
                };
                assert(is_first_dot(s@, i as int) && e.line == Some(line_col(s@, i as int).0 as u64)
                    && e.col == Some(line_col(s@, i as int).1 as u64));
                assert(has_dot(s@)) by {
                    assert(s@[i as int] == '.');
                }
                return Err(e);
            }
            if s[i] == '\n' {
                line = line + 1;
                col = 1;
            } else {
                col = col + 1;
            }
            i = i + 1;
        }
        assert(!has_dot(s@));
    }
    Ok(rewrite_lead(s))
}


fn emit_into(out: &mut Vec<char>, c: char, prev: char)
    ensures
        final(out)@ == old(out)@ + emit(c, prev),
{
    if is_space_char(c) {
    } else if c == '%' {
        out.push('1');
        out.push('0');
        out.push('0');
    } else if c == 'x' || c == 'X' {
        out.push('*');
    } else if c == '-' && prev != '+' && prev != '/' && prev != '*' {
        out.push('+');
        out.push('-');
    } else if c == '(' && (('0' <= prev && prev <= '9') || prev == '.' || prev == '%') {
        out.push('*');
        out.push('(');
    } else {
        out.push(c);
    }
    assert(final(out)@ =~= old(out)@ + emit(c, prev));
}

/// `rewrite` of a sequence that grows by one character at its end.
proof fn lemma_rewrite_push(s: Seq<char>, i: int)
    requires
        0 <= i < s.len(),
    ensures
        rewrite(s.take(i + 1)) == rewrite(s.take(i)) + emit(s[i], last_nonspace(s.take(i))),
        last_nonspace(s.take(i + 1)) == if is_space(s[i]) {
            last_nonspace(s.take(i))
        } else {
            s[i]
        },
{
    assert(s.take(i + 1).drop_last() =~= s.take(i));
}

fn first_nonspace_exec(s: &Vec<char>) -> (r: char)
    ensures
        r == first_nonspace(s@),
{
    let mut k: usize = 0;
    assert(s@.skip(0) =~= s@);
    while k < s.len() && is_space_char(s[k])
        invariant
            k <= s@.len(),
            first_nonspace(s@) == first_nonspace(s@.skip(k as int)),
        decreases s.len() - k,
    {
        assert(s@.skip(k as int).drop_first() =~= s@.skip(k + 1));
        k = k + 1;
    }
    if k < s.len() {
        s[k]
    } else {
        assert(s@.skip(k as int).len() == 0);
        ' '
    }
}

fn with_lead_exec(s: &Vec<char>) -> (w: Vec<char>)
    ensures
        w@ == with_lead(s@),
{
    let first = first_nonspace_exec(s);
    let mut w: Vec<char> = Vec::new();
    if first == '+' || first == '-' {
        w.push('0');
    }
    let mut i: usize = 0;
    while i < s.len()
        invariant
            i <= s@.len(),
            w@ == if first == '+' || first == '-' { seq!['0'] + s@.take(i as int) } else { s@.take(i as int) },
            first == first_nonspace(s@),
        decreases s.len() - i,
    {
        w.push(s[i]);
        i = i + 1;
        assert(s@.take(i as int) =~= s@.take(i - 1) + seq![s@[i - 1]]);
        assert(w@ =~= if first == '+' || first == '-' { seq!['0'] + s@.take(i as int) } else { s@.take(i as int) });
    }
    assert(s@.take(s@.len() as int) =~= s@);
    w
}

fn rewrite_lead(s: &Vec<char>) -> (r: Vec<char>)
    ensures
        r@ == canonical(s@),
{
    let w = with_lead_exec(s);
    let ghost ws = w@;
    assert(ws == with_lead(s@));
    let mut out: Vec<char> = Vec::new();
    let mut prev: char = ' ';
    let mut i: usize = 0;
    while i < w.len()
        invariant
            w@ == ws,
            i <= ws.len(),
            out@ == rewrite(ws.take(i as int)),
            prev == last_nonspace(ws.take(i as int)),
        decreases w.len() - i,
    {
        let c = w[i];
        proof {
            lemma_rewrite_push(ws, i as int);
        }
        emit_into(&mut out, c, prev);
        if !is_space_char(c) {
            prev = c;
        }
        i = i + 1;
    }
    assert(ws.take(ws.len() as int) =~= ws);
    out
}

/// The index of the first character of `text` that is one of `chars`.
/// `chars` is scanned directly: a set of a handful of characters gains
/// nothing from hashing, and a scan keeps the whole search verified.
pub fn find_one_of(text: &Vec<char>, chars: &Vec<char>) -> (r: Option<usize>)
    ensures
        match r {
            Some(i) => i < text@.len() && chars@.contains(text@[i as int]) && forall|j: int|
                0 <= j < i ==> !chars@.contains(#[trigger] text@[j]),
            None => forall|j: int| 0 <= j < text@.len() ==> !chars@.contains(#[trigger] text@[j]),
        },
{
    let mut i: usize = 0;
    while i < text.len()
        invariant
            i <= text@.len(),
            forall|j: int| 0 <= j < i ==> !chars@.contains(#[trigger] text@[j]),
        decreases text.len() - i,
    {
        let c = text[i];
        let mut k: usize = 0;
        while k < chars.len()
            invariant
                i < text@.len(),
                forall|j: int| 0 <= j < i ==> !chars@.contains(#[trigger] text@[j]),
                k <= chars@.len(),
                c == text@[i as int],
                forall|m: int| 0 <= m < k ==> chars@[m] != c,
            decreases chars.len() - k,
        {
            if chars[k] == c {
                assert(chars@.contains(c)) by {
                    assert(chars@[k as int] == c);
                }
                return Some(i);
            }
            k = k + 1;
        }
        assert(!chars@.contains(c));
        i = i + 1;
    }
    None
}

/// Scans `t` from `k` for the group that opens with `open` and closes with
/// `close`, with `depth` groups open so far and the current group opened at
/// `start`. `None` stands for an `open` that is never closed.
pub open spec fn scan_enclosure(t: Seq<char>, k: int, depth: int, start: int, open: char, close: char) -> Option<
    Option<(int, int)>,
>
    decreases t.len() - k,
{
    if k >= t.len() {
        if depth > 0 {
            None
        } else {
            Some(None)
        }
    } else if t[k] == open {
        scan_enclosure(t, k + 1, depth + 1, if depth == 0 { k } else { start }, open, close)
    } else if t[k] == close {
        if depth - 1 == 0 {
            Some(Some((start, k + 1)))
        } else {
            scan_enclosure(t, k + 1, depth - 1, start, open, close)
        }
    } else {
        scan_enclosure(t, k + 1, depth, start, open, close)
    }
}

/// Finds the first group of `text` from `pos` on that opens with `open` and
/// closes with the matching `close`: the index of the `open` and the index
/// just past the `close`. An `open` that is never closed is an error.
pub fn find_enclosure_from(text: &Vec<char>, pos: usize, open: char, close: char) -> (r: Result<
    Option<(usize, usize)>,
    SyntaxError,
>)
    requires
        pos <= text@.len(),
    ensures
        match r {
            Ok(Some((s, e))) => scan_enclosure(text@, pos as int, 0, 0, open, close) == Some(
                Some((s as int, e as int)),
            ),
            Ok(None) => scan_enclosure(text@, pos as int, 0, 0, open, close) == Some(
                None::<(int, int)>,
            ),
            Err(err) => scan_enclosure(text@, pos as int, 0, 0, open, close) is None
                && err.kind == ErrorKind::UnmatchedParenthesis,
        },
{
    let mut depth: i128 = 0;
    let mut start: usize = 0;
    let mut k: usize = pos;
    while k < text.len()
        invariant
            pos <= k <= text@.len(),
            -(k as int) <= depth <= k,
            start <= k,
            scan_enclosure(text@, pos as int, 0, 0, open, close) == scan_enclosure(
                text@,
                k as int,
                depth as int,
                start as int,
                open,
                close,
            ),
        decreases text.len() - k,
    {
        let c = text[k];
        if c == open {
            if depth == 0 {
                start = k;
            }
            depth = depth + 1;
        } else if c == close {
            depth = depth - 1;
            if depth == 0 {
                return Ok(Some((start, k + 1)));
            }
        }
        k = k + 1;
    }
    if depth > 0 {
        return Err(SyntaxError::from_string(
            ErrorKind::UnmatchedParenthesis,
            "found '(' without matching ')'".to_string(),
        ));
    }
    Ok(None)
}

/// Relies on collecting an iterator of `char` into a `String`: the same
/// characters in the same order.
#[verifier::external_body]
pub(crate) fn string_of(chars: &Vec<char>) -> (r: String)
    ensures
        r@ == chars@,
{
    chars.iter().collect()
}

/// Appends the characters of `s` to `out`.
pub(crate) fn push_all(out: &mut Vec<char>, s: &str)
    ensures
        final(out)@ == old(out)@ + s@,
{
    let cs = chars_of(s);
    let mut i: usize = 0;
    while i < cs.len()
        invariant
            cs@ == s@,
            i <= cs@.len(),
            out@ == old(out)@ + cs@.take(i as int),
        decreases cs.len() - i,
    {
        out.push(cs[i]);
        i = i + 1;
        assert(out@ =~= old(out)@ + cs@.take(i as int));
    }
    assert(cs@.take(cs@.len() as int) =~= cs@);
}

pub open spec fn digit_char(d: int) -> char {
    if d == 0 {
        '0'
    } else if d == 1 {
        '1'
    } else if d == 2 {
        '2'
    } else if d == 3 {
        '3'
    } else if d == 4 {
        '4'
    } else if d == 5 {
        '5'
    } else if d == 6 {
        '6'
    } else if d == 7 {
        '7'
    } else if d == 8 {
        '8'
    } else {
        '9'
    }
}

/// The decimal digits of `n`.
pub open spec fn decimal(n: nat) -> Seq<char>
    decreases n,
{
    if n < 10 {
        seq![digit_char(n as int)]
    } else {
        decimal(n / 10) + seq![digit_char((n % 10) as int)]
    }
}

fn digit_of(d: u64) -> (r: char)
    requires
        d < 10,
    ensures
        r == digit_char(d as int),
{
    if d == 0 {
        '0'
    } else if d == 1 {
        '1'
    } else if d == 2 {
        '2'
    } else if d == 3 {
        '3'
    } else if d == 4 {
        '4'
    } else if d == 5 {
        '5'
    } else if d == 6 {
        '6'
    } else if d == 7 {
        '7'
    } else if d == 8 {
        '8'
    } else {
        '9'
    }
}

/// The decimal digits of `n`.
pub fn decimal_digits(n: u64) -> (r: Vec<char>)
    ensures
        r@ == decimal(n as nat),
    decreases n,
{
    if n < 10 {
        let mut v: Vec<char> = Vec::new();
        v.push(digit_of(n));
        assert(v@ =~= decimal(n as nat));
        v
    } else {
        let mut v = decimal_digits(n / 10);
        v.push(digit_of(n % 10));
        assert(v@ =~= decimal(n as nat));
        v
    }
}

} // verus!
