//! Text handling shared by the status lines, the CSV files and the client
//! prompt: decimal rendering and reading, whitespace trimming, CSV quoting
//! and splitting.
use vstd::prelude::*;
use vstd::string::StringExecFns;

verus! {

/// Appends one character to a string (`String::push`).
#[verifier::external_body]
pub(crate) fn push_char(s: &mut String, c: char)
    ensures
        final(s)@ == old(s)@.push(c),
{
    s.push(c);
}

/// Appends a string slice.
pub fn push_str(s: &mut String, t: &str)
    ensures
        final(s)@ == old(s)@ + t@,
{
    s.append(t);
}

/// Whether two string slices hold the same characters.
pub fn str_equals(a: &str, b: &str) -> (r: bool)
    ensures
        r == (a@ == b@),
{
    let n = a.unicode_len();
    let m = b.unicode_len();
    if n != m {
        return false;
    }
    let mut i: usize = 0;
    while i < n
        invariant
            n == a@.len(),
            m == b@.len(),
            n == m,
            i <= n,
            forall|k: int| 0 <= k < i ==> a@[k] == b@[k],
        decreases n - i,
    {
        if a.get_char(i) != b.get_char(i) {
            return false;
        }
        i = i + 1;
    }
    assert(a@ =~= b@);
    true
}

/// The character of a decimal digit.
pub open spec fn digit_char(d: nat) -> char {
    if d == 0 {
        '0'
    } else if d == 1 {
        '1'
    } else if d == 2 {
        '2'
    } else if d == 3 {
        '3'
    } else if d == 4 {
        '4'
    } else if d == 5 {
        '5'
    } else if d == 6 {
        '6'
    } else if d == 7 {
        '7'
    } else if d == 8 {
        '8'
    } else {
        '9'
    }
}

/// The decimal rendering of a natural number, without leading zeros.
pub open spec fn decimal(n: nat) -> Seq<char>
    decreases n,
{
    if n < 10 {
        seq![digit_char(n)]
    } else {
        decimal(n / 10).push(digit_char(n % 10))
    }
}

fn digit_to_char(d: u128) -> (c: char)
    requires
        d < 10,
    ensures
        c == digit_char(d as nat),
{
    if d == 0 {
        '0'
    } else if d == 1 {
        '1'
    } else if d == 2 {
        '2'
    } else if d == 3 {
        '3'
    } else if d == 4 {
        '4'
    } else if d == 5 {
        '5'
    } else if d == 6 {
        '6'
    } else if d == 7 {
        '7'
    } else if d == 8 {
        '8'
    } else {
        '9'
    }
}

/// Appends the decimal rendering of `v`.
pub fn push_decimal(s: &mut String, v: u128)
    ensures
        final(s)@ == old(s)@ + decimal(v as nat),
    decreases v,
{
    if v >= 10 {
        push_decimal(s, v / 10);
    }
    push_char(s, digit_to_char(v % 10));
    assert(s@ =~= old(s)@ + decimal(v as nat));
}

/// The decimal rendering of `v` as a new string.
pub fn decimal_string(v: u128) -> (s: String)
    ensures
        s@ == decimal(v as nat),
{
    let mut s = String::new();
    push_decimal(&mut s, v);
    assert(s@ =~= decimal(v as nat));
    s
}

/// Characters with the Unicode `White_Space` property, which is what
/// `char::is_whitespace` and `str::trim` go by.
pub open spec fn is_white_space(c: char) -> bool {
    ||| ('\u{9}' <= c && c <= '\u{d}')
    ||| c == ' '
    ||| c == '\u{85}'
    ||| c == '\u{a0}'
    ||| c == '\u{1680}'
    ||| ('\u{2000}' <= c && c <= '\u{200a}')
    ||| c == '\u{2028}'
    ||| c == '\u{2029}'
    ||| c == '\u{202f}'
    ||| c == '\u{205f}'
    ||| c == '\u{3000}'
}

pub fn char_is_white_space(c: char) -> (r: bool)
    ensures
        r == is_white_space(c),
{
    ('\u{9}' <= c && c <= '\u{d}') || c == ' ' || c == '\u{85}' || c == '\u{a0}' || c
        == '\u{1680}' || ('\u{2000}' <= c && c <= '\u{200a}') || c == '\u{2028}' || c
        == '\u{2029}' || c == '\u{202f}' || c == '\u{205f}' || c == '\u{3000}'
}

/// Index of the first character at or after `from` that is not white space
/// (the length if there is none).
pub open spec fn first_non_space(s: Seq<char>, from: int) -> int
    decreases s.len() - from,
{
    if from >= s.len() || from < 0 {
        if from < 0 {
            0
        } else {
            s.len() as int
        }
    } else if !is_white_space(s[from]) {
        from
    } else {
        first_non_space(s, from + 1)
    }
}

/// End (exclusive) of the text in `s[lo..to]` once trailing white space is cut.
pub open spec fn end_non_space(s: Seq<char>, lo: int, to: int) -> int
    decreases to - lo,
{
    if to <= lo {
        lo
    } else if !is_white_space(s[to - 1]) {
        to
    } else {
        end_non_space(s, lo, to - 1)
    }
}

/// The start of the trimmed text.
pub open spec fn trim_start(s: Seq<char>) -> int {
    first_non_space(s, 0)
}

/// The end of the trimmed text.
pub open spec fn trim_end(s: Seq<char>) -> int {
    end_non_space(s, trim_start(s), s.len() as int)
}

/// `s` without leading and trailing white space.
pub open spec fn trimmed(s: Seq<char>) -> Seq<char> {
    s.subrange(trim_start(s), trim_end(s))
}

proof fn lemma_first_non_space_bounds(s: Seq<char>, from: int)
    requires
        0 <= from <= s.len(),
    ensures
        from <= first_non_space(s, from) <= s.len(),
    decreases s.len() - from,
{
    if from < s.len() && is_white_space(s[from]) {
        lemma_first_non_space_bounds(s, from + 1);
    }
}

proof fn lemma_end_non_space_bounds(s: Seq<char>, lo: int, to: int)
    requires
        0 <= lo,
        to <= s.len(),
    ensures
        lo <= end_non_space(s, lo, to),
        to >= lo ==> end_non_space(s, lo, to) <= to,
    decreases to - lo,
{
    if to > lo && is_white_space(s[to - 1]) {
        lemma_end_non_space_bounds(s, lo, to - 1);
    }
}

proof fn lemma_trim_bounds(s: Seq<char>)
    ensures
        0 <= trim_start(s) <= trim_end(s) <= s.len(),
{
    lemma_first_non_space_bounds(s, 0);
    lemma_end_non_space_bounds(s, trim_start(s), s.len() as int);
}

/// The bounds of `s` once leading and trailing white space is cut.
pub fn trim_bounds(s: &str) -> (r: (usize, usize))
    ensures
        r.0 == trim_start(s@),
        r.1 == trim_end(s@),
        r.0 <= r.1 <= s@.len(),
{
    let n = s.unicode_len();
    let mut i: usize = 0;
    while i < n && char_is_white_space(s.get_char(i))
        invariant
            n == s@.len(),
            i <= n,
            first_non_space(s@, i as int) == first_non_space(s@, 0),
        decreases n - i,
    {
        i = i + 1;
    }
    let mut j: usize = n;
    while j > i && char_is_white_space(s.get_char(j - 1))
        invariant
            n == s@.len(),
            i <= j <= n,
            i == trim_start(s@),
            end_non_space(s@, i as int, j as int) == trim_end(s@),
        decreases j,
    {
        j = j - 1;
    }
    proof {
        lemma_trim_bounds(s@);
    }
    (i, j)
}

/// `s` without leading and trailing white space (`str::trim`).
pub fn trim(s: &str) -> (r: &str)
    ensures
        r@ == trimmed(s@),
{
    let (i, j) = trim_bounds(s);
    s.substring_char(i, j)
}

/// The value of a decimal digit character.
pub open spec fn digit_value(c: char) -> nat {
    (c as nat - '0' as nat) as nat
}

pub open spec fn is_digit(c: char) -> bool {
    '0' <= c && c <= '9'
}

/// The number a run of decimal digits spells.
pub open spec fn digits_value(s: Seq<char>) -> nat
    decreases s.len(),
{
    if s.len() == 0 {
        0
    } else {
        digits_value(s.drop_last()) * 10 + digit_value(s.last())
    }
}

/// What the standard parser of an unsigned integer reads from `s`: an
/// optional `+`, then one or more decimal digits and nothing else.
pub open spec fn unsigned_value(s: Seq<char>) -> Option<nat> {
    let body = unsigned_body(s);
    if body.len() > 0 && all_digits(body) {
        Some(digits_value(body))
    } else {
        None
    }
}

/// `s` without one leading `+`.
pub open spec fn unsigned_body(s: Seq<char>) -> Seq<char> {
    if s.len() > 0 && s[0] == '+' {
        s.drop_first()
    } else {
        s
    }
}

pub open spec fn all_digits(s: Seq<char>) -> bool {
    forall|i: int| 0 <= i < s.len() ==> is_digit(#[trigger] s[i])
}

/// Reads an unsigned decimal from `s[from..to]` as the standard parser does;
/// `None` where it would fail, including above `u128::MAX`.
pub fn parse_unsigned(s: &str, from: usize, to: usize) -> (r: Option<u128>)
    requires
        from <= to <= s@.len(),
    ensures
        ({
            let t = s@.subrange(from as int, to as int);
            match r {
                Some(v) => unsigned_value(t) == Some(v as nat),
                None => unsigned_value(t) is None || unsigned_value(t)->0 > u128::MAX,
            }
        }),
{
    let ghost t = s@.subrange(from as int, to as int);
    let mut start = from;
    if from < to && s.get_char(from) == '+' {
        start = from + 1;
    }
    let ghost body = s@.subrange(start as int, to as int);
    assert(body =~= unsigned_body(t));
    if start == to {
        return None;
    }
    let mut value: u128 = 0;
    let mut i = start;
    let mut overflow = false;
    while i < to
        invariant
            from <= start <= i <= to <= s@.len(),
            body == s@.subrange(start as int, to as int),
            t == s@.subrange(from as int, to as int),
            body == unsigned_body(t),
            body.len() > 0,
            forall|k: int| 0 <= k < i - start ==> is_digit(#[trigger] body[k]),
            !overflow ==> value == digits_value(body.take(i - start)),
            overflow ==> digits_value(body.take(i - start)) > u128::MAX,
        decreases to - i,
    {
        let c = s.get_char(i);
        if !('0' <= c && c <= '9') {
            assert(!is_digit(body[i - start]));
            assert(!all_digits(body));
            return None;
        }
        let d = (c as u32 - '0' as u32) as u128;
        let ghost prefix = body.take(i - start);
        assert(body.take(i + 1 - start).drop_last() =~= prefix);
        assert(body.take(i + 1 - start).last() == c);
        assert(d == digit_value(c));
        if !overflow {
            if value > (u128::MAX - d) / 10 {
                overflow = true;
                assert(value * 10 + d > u128::MAX) by (nonlinear_arith)
                    requires
                        value > (u128::MAX - d) / 10,
                        d < 10,
                ;
            } else {
                assert(value * 10 + d <= u128::MAX) by (nonlinear_arith)
                    requires
                        value <= (u128::MAX - d) / 10,
                        d < 10,
                ;
                value = value * 10 + d;
            }
        } else {
            assert(digits_value(prefix) * 10 + d > u128::MAX) by (nonlinear_arith)
                requires
                    digits_value(prefix) > u128::MAX,
            ;
        }
        i = i + 1;
    }
    assert(body.take(to - start) =~= body);
    if overflow {
        None
    } else {
        Some(value)
    }
}

/// The number the standard parser of a `u64` reads from `s`, if any.
pub open spec fn u64_value(s: Seq<char>) -> Option<u64> {
    match unsigned_value(s) {
        Some(v) => if v <= u64::MAX {
            Some(v as u64)
        } else {
            None
        },
        None => None,
    }
}

/// The number the standard parser of a `u128` reads from `s`, if any.
pub open spec fn u128_value(s: Seq<char>) -> Option<u128> {
    match unsigned_value(s) {
        Some(v) => if v <= u128::MAX {
            Some(v as u128)
        } else {
            None
        },
        None => None,
    }
}

/// `s.parse::<u64>()`, as an `Option`.
pub fn parse_u64_exact(s: &str) -> (r: Option<u64>)
    ensures
        r == u64_value(s@),
{
    let n = s.unicode_len();
    assert(s@.subrange(0, n as int) =~= s@);
    match parse_unsigned(s, 0, n) {
        Some(v) => if v <= u64::MAX as u128 {
            Some(v as u64)
        } else {
            None
        },
        None => None,
    }
}

/// `s.parse::<u128>()`, as an `Option`.
pub fn parse_u128_exact(s: &str) -> (r: Option<u128>)
    ensures
        r == u128_value(s@),
{
    let n = s.unicode_len();
    assert(s@.subrange(0, n as int) =~= s@);
    parse_unsigned(s, 0, n)
}

/// A field read as a `u64` once trimmed; 0 where that fails.
pub fn parse_u64(value: &str) -> (r: u64)
    ensures
        r == match u64_value(trimmed(value@)) {
            Some(v) => v,
            None => 0,
        },
{
    match parse_u64_exact(trim(value)) {
        Some(v) => v,
        None => 0,
    }
}

/// A field read as a `u128` once trimmed; 0 where that fails.
pub fn parse_u128(value: &str) -> (r: u128)
    ensures
        r == match u128_value(trimmed(value@)) {
            Some(v) => v,
            None => 0,
        },
{
    match parse_u128_exact(trim(value)) {
        Some(v) => v,
        None => 0,
    }
}

/// A CSV field must be quoted when it holds a comma, a quote or a line break.
pub open spec fn needs_quoting(s: Seq<char>) -> bool {
    exists|i: int|
        0 <= i < s.len() && (s[i] == ',' || s[i] == '"' || s[i] == '\n' || s[i] == '\r')
}

/// `s` with every quote doubled.
pub open spec fn double_quotes(s: Seq<char>) -> Seq<char>
    decreases s.len(),
{
    if s.len() == 0 {
        seq![]
    } else {
        double_quotes(s.drop_last()) + (if s.last() == '"' {
            seq!['"', '"']
        } else {
            seq![s.last()]
        })
    }
}

/// The CSV rendering of one field.
pub open spec fn csv_escaped(s: Seq<char>) -> Seq<char> {
    if needs_quoting(s) {
        seq!['"'] + double_quotes(s) + seq!['"']
    } else {
        s
    }
}

/// Quotes a CSV field where it needs it, doubling the quotes inside.
pub fn csv_escape(value: &str) -> (r: String)
    ensures
        r@ == csv_escaped(value@),
{
    let n = value.unicode_len();
    let mut quoted = String::new();
    let mut needs = false;
    let mut i: usize = 0;
    while i < n
        invariant
            n == value@.len(),
            i <= n,
            quoted@ == double_quotes(value@.take(i as int)),
            needs <==> exists|k: int|
                0 <= k < i && (value@[k] == ',' || value@[k] == '"' || value@[k] == '\n'
                    || value@[k] == '\r'),
        decreases n - i,
    {
        let c = value.get_char(i);
        assert(value@.take(i + 1).drop_last() =~= value@.take(i as int));
        if c == '"' {
            push_char(&mut quoted, '"');
            push_char(&mut quoted, '"');
        } else {
            push_char(&mut quoted, c);
        }
        if c == ',' || c == '"' || c == '\n' || c == '\r' {
            needs = true;
        }
        assert(quoted@ =~= double_quotes(value@.take(i + 1)));
        i = i + 1;
    }
    assert(value@.take(n as int) =~= value@);
    if needs {
        let mut r = String::new();
        push_char(&mut r, '"');
        push_str(&mut r, quoted.as_str());
        push_char(&mut r, '"');
        assert(r@ =~= seq!['"'] + double_quotes(value@) + seq!['"']);
        r
    } else {
        String::from_str(value)
    }
}

/// The state of the CSV splitter after reading part of a line: the fields
/// finished so far, the field being read, and whether a quote is open.
pub struct SplitState {
    pub fields: Seq<Seq<char>>,
    pub current: Seq<char>,
    pub in_quotes: bool,
}

/// Runs the splitter from position `i` on.  Inside quotes a doubled quote
/// stands for one quote and a single quote closes them; outside quotes a
/// quote opens them and a comma ends the field.
pub open spec fn split_from(line: Seq<char>, i: int, st: SplitState) -> Seq<Seq<char>>
    decreases line.len() - i,
{
    if i >= line.len() || i < 0 {
        st.fields.push(st.current)
    } else {
        let c = line[i];
        if c == '"' && st.in_quotes {
            if i + 1 < line.len() && line[i + 1] == '"' {
                split_from(line, i + 2, SplitState { current: st.current.push('"'), ..st })
            } else {
                split_from(line, i + 1, SplitState { in_quotes: false, ..st })
            }
        } else if c == '"' {
            split_from(line, i + 1, SplitState { in_quotes: true, ..st })
        } else if c == ',' && !st.in_quotes {
            split_from(
                line,
                i + 1,
                SplitState { fields: st.fields.push(st.current), current: seq![], ..st },
            )
        } else {
            split_from(line, i + 1, SplitState { current: st.current.push(c), ..st })
        }
    }
}

/// The fields of a CSV line.
pub open spec fn csv_fields(line: Seq<char>) -> Seq<Seq<char>> {
    split_from(line, 0, SplitState { fields: seq![], current: seq![], in_quotes: false })
}

/// The characters of each string.
pub open spec fn string_views(v: Seq<String>) -> Seq<Seq<char>> {
    v.map_values(|s: String| s@)
}

/// Splits a CSV line into its fields, honouring quotes.
pub fn split_csv_line(line: &str) -> (fields: Vec<String>)
    ensures
        string_views(fields@) == csv_fields(line@),
{
    let n = line.unicode_len();
    let mut fields: Vec<String> = Vec::new();
    let mut current = String::new();
    let mut in_quotes = false;
    let mut i: usize = 0;
    assert(string_views(fields@) =~= seq![]);
    assert(current@ =~= seq![]);
    while i < n
        invariant
            n == line@.len(),
            i <= n,
            split_from(
                line@,
                i as int,
                SplitState { fields: string_views(fields@), current: current@, in_quotes },
            ) == csv_fields(line@),
        decreases n - i,
    {
        let ghost st = SplitState { fields: string_views(fields@), current: current@, in_quotes };
        let c = line.get_char(i);
        if c == '"' && in_quotes {
            if i + 1 < n && line.get_char(i + 1) == '"' {
                push_char(&mut current, '"');
                i = i + 2;
            } else {
                in_quotes = false;
                i = i + 1;
            }
        } else if c == '"' {
            in_quotes = true;
            i = i + 1;
        } else if c == ',' && !in_quotes {
            let done = current.clone();
            fields.push(done);
            current = String::new();
            assert(string_views(fields@) =~= st.fields.push(st.current));
            i = i + 1;
        } else {
            push_char(&mut current, c);
            i = i + 1;
        }
    }
    let ghost st = SplitState { fields: string_views(fields@), current: current@, in_quotes };
    fields.push(current);
    assert(string_views(fields@) =~= st.fields.push(st.current));
    fields
}


/// Runs the word splitter from position `i` on, with the word being read and
/// the words finished so far.
pub open spec fn words_from(s: Seq<char>, i: int, cur: Seq<char>, acc: Seq<Seq<char>>) -> Seq<
    Seq<char>,
>
    decreases s.len() - i,
{
    if i >= s.len() || i < 0 {
        if cur.len() > 0 {
            acc.push(cur)
        } else {
            acc
        }
    } else if is_white_space(s[i]) {
        if cur.len() > 0 {
            words_from(s, i + 1, seq![], acc.push(cur))
        } else {
            words_from(s, i + 1, cur, acc)
        }
    } else {
        words_from(s, i + 1, cur.push(s[i]), acc)
    }
}

/// The words of `s`: its maximal runs of characters that are not white space.
pub open spec fn words_of(s: Seq<char>) -> Seq<Seq<char>> {
    words_from(s, 0, seq![], seq![])
}

/// Splits `s` into its words (`str::split_whitespace`).
pub fn split_words(s: &str) -> (words: Vec<String>)
    ensures
        string_views(words@) == words_of(s@),
{
    let n = s.unicode_len();
    let mut words: Vec<String> = Vec::new();
    let mut cur = String::new();
    let mut i: usize = 0;
    assert(string_views(words@) =~= seq![]);
    assert(cur@ =~= seq![]);
    while i < n
        invariant
            n == s@.len(),
            i <= n,
            words_from(s@, i as int, cur@, string_views(words@)) == words_of(s@),
        decreases n - i,
    {
        let ghost acc = string_views(words@);
        let c = s.get_char(i);
        if char_is_white_space(c) {
            if cur.as_str().unicode_len() > 0 {
                let done = cur.clone();
                words.push(done);
                cur = String::new();
                assert(string_views(words@) =~= acc.push(done@));
                assert(cur@ =~= seq![]);
            }
        } else {
            push_char(&mut cur, c);
        }
        i = i + 1;
    }
    let ghost acc = string_views(words@);
    if cur.as_str().unicode_len() > 0 {
        words.push(cur);
        assert(string_views(words@) =~= acc.push(cur@));
    }
    words
}

/// Words joined by single spaces.
pub open spec fn join_words(w: Seq<Seq<char>>) -> Seq<char>
    decreases w.len(),
{
    if w.len() == 0 {
        seq![]
    } else if w.len() == 1 {
        w[0]
    } else {
        join_words(w.drop_last()) + seq![' '] + w.last()
    }
}

/// Joins `words[from..]` with single spaces.
pub fn join_words_from(words: &Vec<String>, from: usize) -> (s: String)
    requires
        from <= words@.len(),
    ensures
        s@ == join_words(string_views(words@).skip(from as int)),
{
    let mut s = String::new();
    let mut i = from;
    assert(string_views(words@).skip(from as int).take(0) =~= seq![]);
    while i < words.len()
        invariant
            from <= i <= words@.len(),
            s@ == join_words(string_views(words@).skip(from as int).take(i - from)),
        decreases words@.len() - i,
    {
        let ghost w = string_views(words@).skip(from as int);
        let ghost before = w.take(i - from);
        assert(w.take(i + 1 - from).drop_last() =~= before);
        assert(w.take(i + 1 - from).last() == words@[i as int]@);
        if i > from {
            push_char(&mut s, ' ');
        } else {
            assert(before =~= seq![]);
        }
        push_str(&mut s, words[i].as_str());
        assert(s@ =~= join_words(w.take(i + 1 - from)));
        i = i + 1;
    }
    assert(string_views(words@).skip(from as int).take(words@.len() - from) =~= string_views(
        words@,
    ).skip(from as int));
    s
}

/// What `str::to_lowercase` gives for a text.
pub uninterp spec fn lowercase(s: Seq<char>) -> Seq<char>;

/// Every character of the text is ASCII.
pub open spec fn is_ascii_text(s: Seq<char>) -> bool {
    forall|i: int| 0 <= i < s.len() ==> (#[trigger] s[i] as u32) < 128
}

/// The ASCII lowercase of a character: `A` to `Z` become `a` to `z`, every
/// other character stays.
pub open spec fn ascii_lower_char(c: char) -> char {
    if 'A' <= c && c <= 'Z' {
        ((c as u32) + 32) as char
    } else {
        c
    }
}

/// A text lowercased character by character in ASCII.
pub open spec fn ascii_lowercase(s: Seq<char>) -> Seq<char> {
    s.map_values(|c: char| ascii_lower_char(c))
}

/// What `str::to_lowercase` gives, as far as it is stated: the ASCII
/// lowercase of an ASCII text, the named result otherwise.
pub open spec fn lowercased(s: Seq<char>) -> Seq<char> {
    if is_ascii_text(s) {
        ascii_lowercase(s)
    } else {
        lowercase(s)
    }
}

/// Lowercases a text (`str::to_lowercase`).  Of an ASCII text the result is
/// its ASCII lowercase, as the documentation of `to_lowercase` (Unicode's
/// lowercase mapping, which maps `A`..`Z` to `a`..`z` and leaves every other
/// ASCII character alone) gives; of other texts only the name is stated.
#[verifier::external_body]
pub(crate) fn to_lowercase(s: &str) -> (r: String)
    ensures
        r@ == lowercase(s@),
        is_ascii_text(s@) ==> r@ == ascii_lowercase(s@),
        r@ == lowercased(s@),
{
    s.to_lowercase()
}

/// `s.parse::<u8>()`, as an `Option`.
pub fn parse_u8_exact(s: &str) -> (r: Option<u8>)
    ensures
        r == (match unsigned_value(s@) {
            Some(v) => if v <= u8::MAX {
                Some(v as u8)
            } else {
                None::<u8>
            },
            None => None,
        }),
{
    let n = s.unicode_len();
    assert(s@.subrange(0, n as int) =~= s@);
    match parse_unsigned(s, 0, n) {
        Some(v) => if v <= u8::MAX as u128 {
            Some(v as u8)
        } else {
            None
        },
        None => None,
    }
}

/// `s.parse::<u32>()`, as an `Option`.
pub fn parse_u32_exact(s: &str) -> (r: Option<u32>)
    ensures
        r == (match unsigned_value(s@) {
            Some(v) => if v <= u32::MAX {
                Some(v as u32)
            } else {
                None::<u32>
            },
            None => None,
        }),
{
    let n = s.unicode_len();
    assert(s@.subrange(0, n as int) =~= s@);
    match parse_unsigned(s, 0, n) {
        Some(v) => if v <= u32::MAX as u128 {
            Some(v as u32)
        } else {
            None
        },
        None => None,
    }
}


proof fn lemma_decimal_digits(n: nat)
    ensures
        decimal(n).len() > 0,
        all_digits(decimal(n)),
        digits_value(decimal(n)) == n,
    decreases n,
{
    let d = n % 10;
    assert(digit_value(digit_char(d)) == d && is_digit(digit_char(d)));
    if n >= 10 {
        lemma_decimal_digits(n / 10);
        let s = decimal(n / 10);
        assert(decimal(n).drop_last() =~= s);
        assert(decimal(n).last() == digit_char(d));
        assert(digits_value(decimal(n)) == digits_value(s) * 10 + digit_value(digit_char(d)));
        assert(n == (n / 10) * 10 + d);
        assert forall|i: int| 0 <= i < decimal(n).len() implies is_digit(#[trigger] decimal(n)[i]) by {
            if i < s.len() {
                assert(decimal(n)[i] == s[i]);
            }
        }
    } else {
        assert(decimal(n).drop_last() =~= Seq::<char>::empty());
        assert(digits_value(decimal(n)) == digits_value(Seq::<char>::empty()) * 10 + digit_value(
            digit_char(d),
        ));
    }
}

/// Every number the library writes in decimal is read back as that number.
pub proof fn lemma_decimal_reads_back(n: nat)
    ensures
        unsigned_value(decimal(n)) == Some(n),
        n <= u64::MAX ==> u64_value(decimal(n)) == Some(n as u64),
        n <= u128::MAX ==> u128_value(decimal(n)) == Some(n as u128),
{
    lemma_decimal_digits(n);
    let s = decimal(n);
    assert(is_digit(s[0]));
    assert(unsigned_body(s) == s);
}


/// A decimal rendering is written as it stands in a CSV line and has no
/// surrounding white space.
pub proof fn lemma_decimal_is_plain(n: nat)
    ensures
        !needs_quoting(decimal(n)),
        splits_plain(decimal(n)),
        csv_escaped(decimal(n)) == decimal(n),
        trimmed(decimal(n)) == decimal(n),
{
    lemma_decimal_digits(n);
    let d = decimal(n);
    assert forall|i: int| 0 <= i < d.len() implies #[trigger] d[i] != ',' && d[i] != '"' && d[i]
        != '\n' && d[i] != '\r' by {
        assert(is_digit(d[i]));
    }
    assert(is_digit(d[0]));
    assert(is_digit(d[d.len() - 1]));
    assert(first_non_space(d, 0) == 0);
    assert(end_non_space(d, 0, d.len() as int) == d.len());
    assert(d.subrange(0, d.len() as int) =~= d);
}

/// The quoted form of one character.
pub open spec fn quoted_char(c: char) -> Seq<char> {
    if c == '"' {
        seq!['"', '"']
    } else {
        seq![c]
    }
}

proof fn lemma_double_quotes_concat(a: Seq<char>, b: Seq<char>)
    ensures
        double_quotes(a + b) == double_quotes(a) + double_quotes(b),
    decreases b.len(),
{
    if b.len() == 0 {
        assert(a + b =~= a);
        assert(double_quotes(a) + double_quotes(b) =~= double_quotes(a));
    } else {
        lemma_double_quotes_concat(a, b.drop_last());
        assert((a + b).drop_last() =~= a + b.drop_last());
        assert((a + b).last() == b.last());
        assert(double_quotes(a + b) =~= double_quotes(a) + double_quotes(b));
    }
}

proof fn lemma_double_quotes_split(s: Seq<char>, k: int)
    requires
        0 <= k < s.len(),
    ensures
        double_quotes(s) == double_quotes(s.take(k)) + quoted_char(s[k]) + double_quotes(
            s.skip(k + 1),
        ),
        double_quotes(s.take(k + 1)) == double_quotes(s.take(k)) + quoted_char(s[k]),
{
    assert(s =~= s.take(k) + (seq![s[k]] + s.skip(k + 1)));
    lemma_double_quotes_concat(s.take(k), seq![s[k]] + s.skip(k + 1));
    lemma_double_quotes_concat(seq![s[k]], s.skip(k + 1));
    assert(seq![s[k]].drop_last() =~= Seq::<char>::empty());
    assert(seq![s[k]].last() == s[k]);
    assert(double_quotes(Seq::<char>::empty()) == Seq::<char>::empty());
    assert(double_quotes(seq![s[k]]) == double_quotes(Seq::<char>::empty()) + quoted_char(s[k]));
    assert(double_quotes(seq![s[k]]) =~= quoted_char(s[k]));
    assert(s.take(k + 1) =~= s.take(k) + seq![s[k]]);
    lemma_double_quotes_concat(s.take(k), seq![s[k]]);
}

proof fn lemma_split_plain(s: Seq<char>, i: int)
    requires
        0 <= i <= s.len(),
        !needs_quoting(s),
    ensures
        split_from(s, i, SplitState { fields: seq![], current: s.take(i), in_quotes: false })
            == seq![s],
    decreases s.len() - i,
{
    if i == s.len() {
        assert(s.take(i) =~= s);
    } else {
        assert(s[i] != ',' && s[i] != '"');
        assert(s.take(i).push(s[i]) =~= s.take(i + 1));
        lemma_split_plain(s, i + 1);
    }
}

proof fn lemma_split_quoted(s: Seq<char>, k: int)
    requires
        0 <= k <= s.len(),
    ensures
        ({
            let t = seq!['"'] + double_quotes(s) + seq!['"'];
            split_from(
                t,
                1 + double_quotes(s.take(k)).len() as int,
                SplitState { fields: seq![], current: s.take(k), in_quotes: true },
            ) == seq![s]
        }),
    decreases s.len() - k,
{
    let t = seq!['"'] + double_quotes(s) + seq!['"'];
    let p: int = 1 + double_quotes(s.take(k)).len() as int;
    if k == s.len() {
        assert(s.take(k) =~= s);
        assert(p == t.len() - 1);
        assert(t[p] == '"');
        let st = SplitState { fields: Seq::<Seq<char>>::empty(), current: s, in_quotes: true };
        assert(split_from(t, p, st) == split_from(t, p + 1, SplitState { in_quotes: false, ..st }));
    } else {
        lemma_double_quotes_split(s, k);
        let pre = double_quotes(s.take(k));
        let q = quoted_char(s[k]);
        let rest = double_quotes(s.skip(k + 1));
        assert(double_quotes(s) == pre + q + rest);
        assert(t =~= seq!['"'] + pre + q + rest + seq!['"']);
        assert(t[p] == q[0]);
        assert(s.take(k).push(s[k]) =~= s.take(k + 1));
        lemma_split_quoted(s, k + 1);
        if s[k] == '"' {
            assert(t[p + 1] == q[1]);
            assert(p + 1 < t.len());
        }
    }
}

/// A field written by `csv_escape` is read back by `split_csv_line` as that
/// same single field.
pub proof fn lemma_csv_escape_splits_back(s: Seq<char>)
    ensures
        csv_fields(csv_escaped(s)) == seq![s],
{
    if needs_quoting(s) {
        let t = seq!['"'] + double_quotes(s) + seq!['"'];
        assert(t[0] == '"');
        assert(s.take(0) =~= Seq::<char>::empty());
        assert(double_quotes(Seq::<char>::empty()) =~= Seq::<char>::empty());
        lemma_split_quoted(s, 0);
    } else {
        assert(s.take(0) =~= Seq::<char>::empty());
        lemma_split_plain(s, 0);
    }
}


/// A CSV line of the given fields: each quoted where it needs it, separated
/// by commas.
pub open spec fn csv_row(fields: Seq<Seq<char>>) -> Seq<char>
    decreases fields.len(),
{
    if fields.len() == 0 {
        seq![]
    } else if fields.len() == 1 {
        csv_escaped(fields[0])
    } else {
        csv_escaped(fields[0]) + seq![','] + csv_row(fields.drop_first())
    }
}

/// No character of `s` is a comma or a quote, so the splitter copies it as it
/// stands.
pub open spec fn splits_plain(s: Seq<char>) -> bool {
    forall|i: int| 0 <= i < s.len() ==> #[trigger] s[i] != ',' && s[i] != '"'
}

proof fn lemma_split_plain_at(line: Seq<char>, p: int, s: Seq<char>, i: int, fs: Seq<Seq<char>>)
    requires
        0 <= p,
        p + s.len() <= line.len(),
        0 <= i <= s.len(),
        line.subrange(p, p + s.len()) == s,
        splits_plain(s),
    ensures
        split_from(line, p + i, SplitState { fields: fs, current: s.take(i), in_quotes: false })
            == split_from(line, p + s.len(), SplitState { fields: fs, current: s, in_quotes: false }),
    decreases s.len() - i,
{
    if i == s.len() {
        assert(s.take(i) =~= s);
    } else {
        assert(line.subrange(p, p + s.len())[i] == line[p + i]);
        assert(s[i] != ',' && s[i] != '"');
        assert(s.take(i).push(s[i]) =~= s.take(i + 1));
        lemma_split_plain_at(line, p, s, i + 1, fs);
    }
}

proof fn lemma_split_quoted_at(line: Seq<char>, p: int, s: Seq<char>, k: int, fs: Seq<Seq<char>>)
    requires
        0 <= p,
        0 <= k <= s.len(),
        p + double_quotes(s).len() + 2 <= line.len(),
        line.subrange(p, p + double_quotes(s).len() + 2) == seq!['"'] + double_quotes(s) + seq![
            '"',
        ],
        p + double_quotes(s).len() + 2 == line.len() || line[p + double_quotes(s).len() + 2]
            != '"',
    ensures
        split_from(
            line,
            p + 1 + double_quotes(s.take(k)).len(),
            SplitState { fields: fs, current: s.take(k), in_quotes: true },
        ) == split_from(
            line,
            p + double_quotes(s).len() + 2,
            SplitState { fields: fs, current: s, in_quotes: false },
        ),
    decreases s.len() - k,
{
    let t = seq!['"'] + double_quotes(s) + seq!['"'];
    let pos: int = p + 1 + double_quotes(s.take(k)).len();
    assert forall|j: int| 0 <= j < t.len() implies line[p + j] == #[trigger] t[j] by {
        assert(line.subrange(p, p + t.len())[j] == line[p + j]);
    }
    if k == s.len() {
        assert(s.take(k) =~= s);
        assert(line[pos] == t[t.len() - 1]);
        let st = SplitState { fields: fs, current: s, in_quotes: true };
        assert(split_from(line, pos, st) == split_from(
            line,
            pos + 1,
            SplitState { in_quotes: false, ..st },
        ));
    } else {
        lemma_double_quotes_split(s, k);
        let pre = double_quotes(s.take(k));
        let q = quoted_char(s[k]);
        let rest = double_quotes(s.skip(k + 1));
        assert(t =~= seq!['"'] + pre + q + rest + seq!['"']);
        assert(t[1 + pre.len() as int] == q[0]);
        assert(line[pos] == q[0]);
        assert(s.take(k).push(s[k]) =~= s.take(k + 1));
        if s[k] == '"' {
            assert(t[2 + pre.len() as int] == q[1]);
            assert(line[pos + 1] == q[1]);
        }
        lemma_split_quoted_at(line, p, s, k + 1, fs);
    }
}

proof fn lemma_split_escaped_at(line: Seq<char>, p: int, s: Seq<char>, fs: Seq<Seq<char>>)
    requires
        0 <= p,
        p + csv_escaped(s).len() <= line.len(),
        line.subrange(p, p + csv_escaped(s).len()) == csv_escaped(s),
        p + csv_escaped(s).len() == line.len() || line[p + csv_escaped(s).len()] == ',',
    ensures
        split_from(line, p, SplitState { fields: fs, current: seq![], in_quotes: false })
            == split_from(
            line,
            p + csv_escaped(s).len(),
            SplitState { fields: fs, current: s, in_quotes: false },
        ),
{
    assert(s.take(0) =~= Seq::<char>::empty());
    if needs_quoting(s) {
        let e = csv_escaped(s);
        assert(line.subrange(p, p + e.len())[0] == line[p]);
        assert(line[p] == '"');
        assert(double_quotes(Seq::<char>::empty()) =~= Seq::<char>::empty());
        lemma_split_quoted_at(line, p, s, 0, fs);
    } else {
        assert forall|i: int| 0 <= i < s.len() implies #[trigger] s[i] != ',' && s[i] != '"' by {
            if s[i] == ',' || s[i] == '"' {
                assert(needs_quoting(s));
            }
        }
        lemma_split_plain_at(line, p, s, 0, fs);
    }
}

proof fn lemma_split_row(line: Seq<char>, p: int, fields: Seq<Seq<char>>, fs: Seq<Seq<char>>)
    requires
        fields.len() >= 1,
        0 <= p,
        p + csv_row(fields).len() <= line.len(),
        line.subrange(p, p + csv_row(fields).len()) == csv_row(fields),
        p + csv_row(fields).len() == line.len() || line[p + csv_row(fields).len()] == ',',
    ensures
        split_from(line, p, SplitState { fields: fs, current: seq![], in_quotes: false })
            == split_from(
            line,
            p + csv_row(fields).len(),
            SplitState { fields: fs + fields.drop_last(), current: fields.last(), in_quotes: false },
        ),
    decreases fields.len(),
{
    let e = csv_escaped(fields[0]);
    let row = csv_row(fields);
    if fields.len() == 1 {
        lemma_split_escaped_at(line, p, fields[0], fs);
        assert(fs + fields.drop_last() =~= fs);
    } else {
        let rest = fields.drop_first();
        assert(row == e + seq![','] + csv_row(rest));
        assert(line.subrange(p, p + e.len()) =~= row.subrange(0, e.len() as int));
        assert(row.subrange(0, e.len() as int) =~= e);
        assert(line.subrange(p, p + row.len())[e.len() as int] == line[p + e.len()]);
        assert(line[p + e.len()] == ',');
        lemma_split_escaped_at(line, p, fields[0], fs);
        let q: int = p + e.len();
        let st = SplitState { fields: fs, current: fields[0], in_quotes: false };
        assert(split_from(line, q, st) == split_from(
            line,
            q + 1,
            SplitState { fields: fs.push(fields[0]), current: seq![], in_quotes: false },
        ));
        let rr = csv_row(rest);
        assert(row.len() == e.len() + 1 + rr.len());
        assert(line.subrange(q + 1, q + 1 + rr.len()) =~= row.subrange(
            e.len() + 1int,
            row.len() as int,
        ));
        assert(row.subrange(e.len() + 1int, row.len() as int) =~= rr);
        lemma_split_row(line, q + 1, rest, fs.push(fields[0]));
        assert(fs.push(fields[0]) + rest.drop_last() =~= fs + fields.drop_last());
        assert(rest.last() == fields.last());
    }
}

proof fn lemma_csv_row_push(fields: Seq<Seq<char>>, f: Seq<char>)
    requires
        fields.len() >= 1,
    ensures
        csv_row(fields.push(f)) == csv_row(fields) + seq![','] + csv_escaped(f),
    decreases fields.len(),
{
    let pushed = fields.push(f);
    if fields.len() == 1 {
        assert(pushed.drop_first() =~= seq![f]);
        assert(csv_row(seq![f]) == csv_escaped(f));
    } else {
        assert(pushed.drop_first() =~= fields.drop_first().push(f));
        lemma_csv_row_push(fields.drop_first(), f);
        assert(csv_row(pushed) =~= csv_row(fields) + seq![','] + csv_escaped(f));
    }
}

/// Joins fields into one CSV line, quoting each where it needs it.
pub fn csv_row_line(fields: &Vec<String>) -> (line: String)
    ensures
        line@ == csv_row(string_views(fields@)),
{
    let mut line = String::new();
    if fields.len() == 0 {
        assert(line@ =~= csv_row(string_views(fields@)));
        return line;
    }
    let first = csv_escape(fields[0].as_str());
    push_str(&mut line, first.as_str());
    let mut i: usize = 1;
    assert(string_views(fields@).take(1) =~= seq![fields@[0]@]);
    assert(line@ =~= csv_row(string_views(fields@).take(1)));
    while i < fields.len()
        invariant
            1 <= i <= fields@.len(),
            line@ == csv_row(string_views(fields@).take(i as int)),
        decreases fields@.len() - i,
    {
        let ghost done = string_views(fields@).take(i as int);
        push_char(&mut line, ',');
        let escaped = csv_escape(fields[i].as_str());
        push_str(&mut line, escaped.as_str());
        proof {
            lemma_csv_row_push(done, fields@[i as int]@);
            assert(done.push(fields@[i as int]@) =~= string_views(fields@).take(i + 1));
        }
        assert(line@ =~= csv_row(string_views(fields@).take(i + 1)));
        i = i + 1;
    }
    assert(string_views(fields@).take(fields@.len() as int) =~= string_views(fields@));
    line
}

/// A line written by joining escaped fields with commas is split back into
/// exactly those fields.
pub proof fn lemma_csv_row_splits_back(fields: Seq<Seq<char>>)
    requires
        fields.len() >= 1,
    ensures
        csv_fields(csv_row(fields)) == fields,
{
    let line = csv_row(fields);
    assert(line.subrange(0, line.len() as int) =~= line);
    lemma_split_row(line, 0, fields, seq![]);
    assert((Seq::<Seq<char>>::empty() + fields.drop_last()).push(fields.last()) =~= fields);
}

/// A line of escaped fields followed by one more field that holds no comma
/// or quote, written as it stands, is split back into all those fields.
pub proof fn lemma_csv_row_then_plain_splits_back(fields: Seq<Seq<char>>, last: Seq<char>)
    requires
        fields.len() >= 1,
        splits_plain(last),
    ensures
        csv_fields(csv_row(fields) + seq![','] + last) == fields.push(last),
{
    let row = csv_row(fields);
    let line = row + seq![','] + last;
    assert(line.subrange(0, row.len() as int) =~= row);
    assert(line[row.len() as int] == ',');
    lemma_split_row(line, 0, fields, seq![]);
    let fs = Seq::<Seq<char>>::empty() + fields.drop_last();
    let q: int = row.len() as int;
    assert(split_from(line, q, SplitState { fields: fs, current: fields.last(), in_quotes: false })
        == split_from(
        line,
        q + 1,
        SplitState { fields: fs.push(fields.last()), current: seq![], in_quotes: false },
    ));
    assert(line.subrange(q + 1, q + 1 + last.len()) =~= last);
    assert(last.take(0) =~= Seq::<char>::empty());
    lemma_split_plain_at(line, q + 1, last, 0, fs.push(fields.last()));
    assert(fs.push(fields.last()) =~= fields);
}

/// Lexicographic order of texts by character code, the order of Rust's
/// `String` comparison (UTF-8 keeps the order of code points).
pub open spec fn text_less(a: Seq<char>, b: Seq<char>) -> bool
    decreases a.len(),
{
    if a.len() == 0 {
        b.len() > 0
    } else if b.len() == 0 {
        false
    } else if a[0] < b[0] {
        true
    } else if a[0] == b[0] {
        text_less(a.drop_first(), b.drop_first())
    } else {
        false
    }
}

/// No text sorts before itself.
pub proof fn lemma_text_less_irreflexive(a: Seq<char>)
    ensures
        !text_less(a, a),
    decreases a.len(),
{
    if a.len() > 0 {
        lemma_text_less_irreflexive(a.drop_first());
    }
}

/// The order of texts is transitive.
pub proof fn lemma_text_less_transitive(a: Seq<char>, b: Seq<char>, c: Seq<char>)
    requires
        text_less(a, b),
        text_less(b, c),
    ensures
        text_less(a, c),
    decreases a.len(),
{
    if a.len() > 0 && b.len() > 0 && c.len() > 0 && a[0] == b[0] && b[0] == c[0] {
        lemma_text_less_transitive(a.drop_first(), b.drop_first(), c.drop_first());
    }
}

/// Of two different texts one sorts before the other.
pub proof fn lemma_text_less_total(a: Seq<char>, b: Seq<char>)
    ensures
        a == b || text_less(a, b) || text_less(b, a),
    decreases a.len(),
{
    if a.len() > 0 && b.len() > 0 && a[0] == b[0] {
        lemma_text_less_total(a.drop_first(), b.drop_first());
        if a.drop_first() == b.drop_first() {
            assert(a =~= seq![a[0]] + a.drop_first());
            assert(b =~= seq![b[0]] + b.drop_first());
        }
    } else if a.len() == 0 && b.len() == 0 {
        assert(a =~= b);
    }
}

/// Whether `a` sorts before `b`.
pub fn text_lt(a: &str, b: &str) -> (r: bool)
    ensures
        r == text_less(a@, b@),
{
    let n = a.unicode_len();
    let m = b.unicode_len();
    let mut i: usize = 0;
    assert(a@.skip(0) =~= a@);
    assert(b@.skip(0) =~= b@);
    while i < n && i < m
        invariant
            n == a@.len(),
            m == b@.len(),
            i <= n,
            i <= m,
            text_less(a@.skip(i as int), b@.skip(i as int)) == text_less(a@, b@),
        decreases n - i,
    {
        let x = a.get_char(i);
        let y = b.get_char(i);
        assert(a@.skip(i as int)[0] == x);
        assert(b@.skip(i as int)[0] == y);
        if x < y {
            return true;
        }
        if x > y {
            return false;
        }
        assert(a@.skip(i as int).drop_first() =~= a@.skip(i + 1));
        assert(b@.skip(i as int).drop_first() =~= b@.skip(i + 1));
        i = i + 1;
    }
    assert(a@.skip(i as int).len() == n - i);
    assert(b@.skip(i as int).len() == m - i);
    i == n && i < m
}

} // verus!
