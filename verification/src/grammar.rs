//! The line grammar of the XYZ text format, as specification functions over
//! sequences of characters, together with verified executable helpers: line
//! splitting, whitespace trimming, whitespace-separated tokenizing, and
//! reading and writing the decimal particle count.

use vstd::prelude::*;

verus! {

/// Whether `c` is one of the ASCII whitespace characters that separate fields
/// and may surround the header and comment lines.
pub open spec fn is_space(c: char) -> bool {
    c == ' ' || c == '\t' || c == '\n' || c == '\r' || c == '\u{b}' || c == '\u{c}'
}

/// Executable test for `is_space`.
pub fn is_space_char(c: char) -> (r: bool)
    ensures
        r == is_space(c),
{
    c == ' ' || c == '\t' || c == '\n' || c == '\r' || c == '\u{b}' || c == '\u{c}'
}

/// `s` without its leading whitespace.
pub open spec fn trim_start(s: Seq<char>) -> Seq<char>
    decreases s.len(),
{
    if s.len() > 0 && is_space(s[0]) {
        trim_start(s.drop_first())
    } else {
        s
    }
}

/// `s` without its trailing whitespace.
pub open spec fn trim_end(s: Seq<char>) -> Seq<char>
    decreases s.len(),
{
    if s.len() > 0 && is_space(s.last()) {
        trim_end(s.drop_last())
    } else {
        s
    }
}

/// `s` without leading and trailing whitespace.
pub open spec fn trim(s: Seq<char>) -> Seq<char> {
    trim_end(trim_start(s))
}

proof fn lemma_trim_start_skip(s: Seq<char>, i: int)
    requires
        0 <= i <= s.len(),
        forall|m: int| 0 <= m < i ==> is_space(s[m]),
    ensures
        trim_start(s) == trim_start(s.skip(i)),
    decreases i,
{
    if i > 0 {
        assert(s.drop_first() =~= s.skip(1));
        lemma_trim_start_skip(s.drop_first(), i - 1);
        assert(s.drop_first().skip(i - 1) =~= s.skip(i));
    } else {
        assert(s.skip(0) =~= s);
    }
}

proof fn lemma_trim_start_id(s: Seq<char>)
    requires
        s.len() == 0 || !is_space(s[0]),
    ensures
        trim_start(s) == s,
{
}

proof fn lemma_trim_end_take(s: Seq<char>, j: int)
    requires
        0 <= j <= s.len(),
        forall|m: int| j <= m < s.len() ==> is_space(s[m]),
    ensures
        trim_end(s) == trim_end(s.take(j)),
    decreases s.len() - j,
{
    if j < s.len() {
        assert(is_space(s.last()));
        assert(s.drop_last() =~= s.take(s.len() - 1));
        lemma_trim_end_take(s.drop_last(), j);
        assert(s.drop_last().take(j) =~= s.take(j));
    } else {
        assert(s.take(j) =~= s);
    }
}

proof fn lemma_trim_end_id(s: Seq<char>)
    requires
        s.len() == 0 || !is_space(s.last()),
    ensures
        trim_end(s) == s,
{
}

/// Trimming a sequence with no whitespace at either end leaves it unchanged.
pub proof fn lemma_trim_id(s: Seq<char>)
    requires
        s.len() == 0 || (!is_space(s[0]) && !is_space(s.last())),
    ensures
        trim(s) == s,
{
    lemma_trim_start_id(s);
    lemma_trim_end_id(s);
}

/// Trim the whitespace from both ends of `s`, returning an owned copy.
pub fn trim_str(s: &str) -> (r: String)
    ensures
        r@ == trim(s@),
{
    let len = s.unicode_len();
    let mut i: usize = 0;
    while i < len && is_space_char(s.get_char(i))
        invariant
            0 <= i <= len,
            len == s@.len(),
            forall|m: int| 0 <= m < i ==> is_space(s@[m]),
        decreases len - i,
    {
        i = i + 1;
    }
    proof {
        lemma_trim_start_skip(s@, i as int);
        lemma_trim_start_id(s@.skip(i as int));
    }
    let mut j: usize = len;
    while j > i && is_space_char(s.get_char(j - 1))
        invariant
            i <= j <= len,
            len == s@.len(),
            forall|m: int| 0 <= m < i ==> is_space(s@[m]),
            forall|m: int| j <= m < len ==> is_space(s@[m]),
        decreases j,
    {
        j = j - 1;
    }
    proof {
        let t = s@.skip(i as int);
        lemma_trim_end_take(t, j - i);
        assert(t.take(j - i) =~= s@.subrange(i as int, j as int));
        lemma_trim_end_id(s@.subrange(i as int, j as int));
    }
    let piece = s.substring_char(i, j);
    piece.to_owned()
}

/// The whitespace-separated tokens of `s`: the maximal runs of non-whitespace
/// characters, in order.
pub open spec fn split_ws(s: Seq<char>) -> Seq<Seq<char>>
    decreases s.len(),
{
    if s.len() == 0 {
        seq![]
    } else if is_space(s[0]) {
        split_ws(s.drop_first())
    } else if s.len() == 1 || is_space(s[1]) {
        seq![seq![s[0]]] + split_ws(s.drop_first())
    } else {
        let rest = split_ws(s.drop_first());
        seq![seq![s[0]] + rest[0]] + rest.drop_first()
    }
}

/// Whether `t` can appear as one whitespace-separated token: non-empty and
/// free of whitespace.
pub open spec fn is_token(t: Seq<char>) -> bool {
    t.len() > 0 && forall|i: int| 0 <= i < t.len() ==> !is_space(t[i])
}

/// Leading whitespace does not change the tokens.
pub proof fn lemma_split_ws_skip_spaces(s: Seq<char>, i: int)
    requires
        0 <= i <= s.len(),
        forall|m: int| 0 <= m < i ==> is_space(s[m]),
    ensures
        split_ws(s) == split_ws(s.skip(i)),
    decreases i,
{
    if i > 0 {
        assert(s.drop_first() =~= s.skip(1));
        lemma_split_ws_skip_spaces(s.drop_first(), i - 1);
        assert(s.drop_first().skip(i - 1) =~= s.skip(i));
    } else {
        assert(s.skip(0) =~= s);
    }
}

/// A leading maximal non-whitespace run of length `l` is the first token.
pub proof fn lemma_split_ws_run(s: Seq<char>, l: int)
    requires
        1 <= l <= s.len(),
        forall|m: int| 0 <= m < l ==> !is_space(s[m]),
        l == s.len() || is_space(s[l]),
    ensures
        split_ws(s) == seq![s.take(l)] + split_ws(s.skip(l)),
    decreases l,
{
    if l == 1 {
        assert(s.take(1) =~= seq![s[0]]);
        assert(s.drop_first() =~= s.skip(1));
    } else {
        assert(!is_space(s[1]));
        assert(s.drop_first() =~= s.skip(1));
        lemma_split_ws_run(s.drop_first(), l - 1);
        let rest = split_ws(s.drop_first());
        assert(rest == seq![s.drop_first().take(l - 1)] + split_ws(s.drop_first().skip(l - 1)));
        assert(rest[0] == s.drop_first().take(l - 1));
        assert(seq![s[0]] + s.drop_first().take(l - 1) =~= s.take(l));
        assert(rest.drop_first() =~= split_ws(s.drop_first().skip(l - 1)));
        assert(s.drop_first().skip(l - 1) =~= s.skip(l));
        assert(split_ws(s) == seq![seq![s[0]] + rest[0]] + rest.drop_first());
    }
}

/// Every token produced by `split_ws` is non-empty and free of whitespace.
pub proof fn lemma_split_ws_tokens(s: Seq<char>)
    ensures
        forall|k: int| 0 <= k < split_ws(s).len() ==> is_token(#[trigger] split_ws(s)[k]),
    decreases s.len(),
{
    if s.len() == 0 {
    } else if is_space(s[0]) {
        lemma_split_ws_tokens(s.drop_first());
    } else if s.len() == 1 || is_space(s[1]) {
        lemma_split_ws_tokens(s.drop_first());
        assert(is_token(seq![s[0]]));
        let rest = split_ws(s.drop_first());
        assert forall|k: int| 0 <= k < split_ws(s).len() implies is_token(
            #[trigger] split_ws(s)[k],
        ) by {
            if k > 0 {
                assert(split_ws(s)[k] == rest[k - 1]);
            }
        }
    } else {
        lemma_split_ws_tokens(s.drop_first());
        let rest = split_ws(s.drop_first());
        assert(is_token(rest[0]));
        assert(is_token(seq![s[0]] + rest[0]));
        assert forall|k: int| 0 <= k < split_ws(s).len() implies is_token(
            #[trigger] split_ws(s)[k],
        ) by {
            if k > 0 {
                assert(split_ws(s)[k] == rest.drop_first()[k - 1]);
                assert(rest.drop_first()[k - 1] == rest[k]);
            }
        }
    }
}

/// Split `line` into its whitespace-separated tokens.
pub fn tokenize(line: &str) -> (toks: Vec<String>)
    ensures
        toks@.map_values(|t: String| t@) == split_ws(line@),
{
    let len = line.unicode_len();
    let mut toks: Vec<String> = Vec::new();
    let mut i: usize = 0;
    proof {
        assert(line@.skip(0) =~= line@);
        assert(toks@.map_values(|t: String| t@) + split_ws(line@) =~= split_ws(line@));
    }
    while i < len
        invariant
            0 <= i <= len,
            len == line@.len(),
            split_ws(line@) == toks@.map_values(|t: String| t@) + split_ws(line@.skip(i as int)),
        decreases len - i,
    {
        if is_space_char(line.get_char(i)) {
            proof {
                let tail = line@.skip(i as int);
                assert(tail[0] == line@[i as int]);
                assert(tail.drop_first() =~= line@.skip(i as int + 1));
            }
            i = i + 1;
        } else {
            let start = i;
            let mut j: usize = i + 1;
            while j < len && !is_space_char(line.get_char(j))
                invariant
                    start < j <= len,
                    len == line@.len(),
                    forall|m: int| start <= m < j ==> !is_space(line@[m]),
                decreases len - j,
            {
                j = j + 1;
            }
            let piece = line.substring_char(start, j).to_owned();
            proof {
                let tail = line@.skip(start as int);
                lemma_split_ws_run(tail, j - start);
                assert(tail.take(j - start) =~= line@.subrange(start as int, j as int));
                assert(tail.skip(j - start) =~= line@.skip(j as int));
                assert(toks@.push(piece).map_values(|t: String| t@) =~= toks@.map_values(
                    |t: String| t@,
                ).push(piece@));
                assert(toks@.map_values(|t: String| t@).push(piece@) + split_ws(
                    line@.skip(j as int),
                ) =~= toks@.map_values(|t: String| t@) + (seq![piece@] + split_ws(
                    line@.skip(j as int),
                )));
            }
            toks.push(piece);
            i = j;
        }
    }
    proof {
        assert(line@.skip(len as int) =~= Seq::<char>::empty());
        assert(split_ws(line@.skip(len as int)) =~= Seq::<Seq<char>>::empty());
        assert(split_ws(line@) =~= toks@.map_values(|t: String| t@));
    }
    toks
}

/// Whether `c` is a decimal digit.
pub open spec fn is_digit(c: char) -> bool {
    48 <= c as u32 <= 57
}

/// The numeric value of the digit `c`.
pub open spec fn digit_val(c: char) -> int {
    c as u32 - 48
}

/// The digit character for a value `d` between 0 and 9.
pub open spec fn digit_char(d: int) -> char {
    if d == 0 {
        '0'
    } else if d == 1 {
        '1'
    } else if d == 2 {
        '2'
    } else if d == 3 {
        '3'
    } else if d == 4 {
        '4'
    } else if d == 5 {
        '5'
    } else if d == 6 {
        '6'
    } else if d == 7 {
        '7'
    } else if d == 8 {
        '8'
    } else {
        '9'
    }
}

/// Whether every character of `s` is a decimal digit.
pub open spec fn all_digits(s: Seq<char>) -> bool {
    forall|i: int| 0 <= i < s.len() ==> is_digit(s[i])
}

/// The value of the digit string `s`, read as a decimal number.
pub open spec fn digits_val(s: Seq<char>) -> int
    decreases s.len(),
{
    if s.len() == 0 {
        0
    } else {
        digits_val(s.drop_last()) * 10 + digit_val(s.last())
    }
}

/// The digit part of a count: `s` with one optional leading `+` removed.
pub open spec fn count_digits(s: Seq<char>) -> Seq<char> {
    if s.len() > 0 && s[0] == '+' {
        s.drop_first()
    } else {
        s
    }
}

/// Whether `s` has the syntax of a non-negative decimal integer: an optional
/// leading `+`, then one or more digits.
pub open spec fn count_syntax_ok(s: Seq<char>) -> bool {
    count_digits(s).len() > 0 && all_digits(count_digits(s))
}

/// The value of a count with valid syntax.
pub open spec fn count_val(s: Seq<char>) -> int {
    digits_val(count_digits(s))
}

/// The value of a digit string is non-negative.
pub proof fn lemma_digits_val_nonneg(s: Seq<char>)
    requires
        all_digits(s),
    ensures
        digits_val(s) >= 0,
    decreases s.len(),
{
    if s.len() > 0 {
        assert(forall|i: int| 0 <= i < s.drop_last().len() ==> is_digit(s.drop_last()[i]));
        lemma_digits_val_nonneg(s.drop_last());
        assert(is_digit(s.last()));
    }
}

proof fn lemma_digits_val_take_step(s: Seq<char>, k: int)
    requires
        0 <= k < s.len(),
    ensures
        digits_val(s.take(k + 1)) == digits_val(s.take(k)) * 10 + digit_val(s[k]),
{
    assert(s.take(k + 1).drop_last() =~= s.take(k));
    assert(s.take(k + 1).last() == s[k]);
}

/// Extending a digit string with further digits can only increase its value.
proof fn lemma_digits_val_grows(s: Seq<char>, k: int)
    requires
        all_digits(s),
        0 <= k <= s.len(),
    ensures
        digits_val(s) >= digits_val(s.take(k)),
    decreases s.len() - k,
{
    if k < s.len() {
        assert(forall|i: int| 0 <= i < s.take(k).len() ==> is_digit(#[trigger] s.take(k)[i]));
        lemma_digits_val_nonneg(s.take(k));
        lemma_digits_val_take_step(s, k);
        assert(digits_val(s.take(k + 1)) >= digits_val(s.take(k)));
        lemma_digits_val_grows(s, k + 1);
    } else {
        assert(s.take(k) =~= s);
    }
}

/// The result of reading a header count from a trimmed line.
pub enum CountRead {
    /// The line is a non-negative decimal integer that fits in `usize`.
    Count(usize),
    /// The line is a non-negative decimal integer too large for `usize`.
    Overflow,
    /// The line is not a non-negative decimal integer.
    Invalid,
}

/// Read a whitespace-free string as a non-negative decimal count: an optional
/// leading `+`, then one or more digits.
pub fn parse_count(s: &str) -> (r: CountRead)
    ensures
        match r {
            CountRead::Count(n) => count_syntax_ok(s@) && count_val(s@) == n,
            CountRead::Overflow => count_syntax_ok(s@) && count_val(s@) > usize::MAX,
            CountRead::Invalid => !count_syntax_ok(s@),
        },
{
    let len = s.unicode_len();
    let start: usize = if len > 0 && s.get_char(0) == '+' {
        1
    } else {
        0
    };
    proof {
        if start == 1 {
            assert(count_digits(s@) =~= s@.skip(1));
        } else {
            assert(count_digits(s@) =~= s@);
        }
    }
    let ghost d = count_digits(s@);
    if start >= len {
        return CountRead::Invalid;
    }
    let mut acc: usize = 0;
    let mut i: usize = start;
    while i < len
        invariant
            start <= i <= len,
            len == s@.len(),
            d == s@.skip(start as int),
            d == count_digits(s@),
            forall|m: int| 0 <= m < i - start ==> is_digit(d[m]),
            acc == digits_val(d.take(i - start)),
        decreases len - i,
    {
        let c = s.get_char(i);
        let cv = c as u32;
        if cv < 48 || cv > 57 {
            proof {
                assert(d[i - start] == s@[i as int]);
                assert(!is_digit(d[i - start]));
                assert(!all_digits(d));
                assert(!count_syntax_ok(s@));
            }
            return CountRead::Invalid;
        }
        let dv = (cv - 48) as usize;
        proof {
            lemma_digits_val_take_step(d, i - start);
        }
        if acc > (usize::MAX - dv) / 10 {
            proof {
                assert(digits_val(d.take(i - start + 1)) == acc * 10 + dv);
                assert(acc * 10 + dv > usize::MAX) by (nonlinear_arith)
                    requires
                        acc > (usize::MAX - dv) / 10,
                        dv <= 9,
                ;
            }
            // the remaining digits can only increase the value, so the count
            // cannot fit; but a later non-digit still makes the line invalid
            let mut j: usize = i + 1;
            while j < len
                invariant
                    i < j <= len,
                    start <= i < len,
                    len == s@.len(),
                    d == s@.skip(start as int),
                    d == count_digits(s@),
                    digits_val(d.take(i - start + 1)) > usize::MAX,
                    forall|m: int| 0 <= m < j - start ==> is_digit(d[m]),
                decreases len - j,
            {
                let c2 = s.get_char(j);
                let cv2 = c2 as u32;
                if cv2 < 48 || cv2 > 57 {
                    proof {
                        assert(d[j - start] == s@[j as int]);
                        assert(!is_digit(d[j - start]));
                        assert(!all_digits(d));
                        assert(!count_syntax_ok(s@));
                    }
                    return CountRead::Invalid;
                }
                j = j + 1;
            }
            proof {
                assert(all_digits(d));
                lemma_digits_val_grows(d, i - start + 1);
                assert(digits_val(d) > usize::MAX);
                assert(d.len() > 0);
                assert(count_syntax_ok(s@));
                assert(count_val(s@) > usize::MAX);
            }
            return CountRead::Overflow;
        }
        proof {
            assert(acc * 10 + dv <= usize::MAX) by (nonlinear_arith)
                requires
                    acc <= (usize::MAX - dv) / 10,
                    dv <= 9,
                    acc >= 0,
            ;
        }
        acc = acc * 10 + dv;
        i = i + 1;
    }
    proof {
        assert(d.take(i - start) =~= d);
    }
    CountRead::Count(acc)
}

/// The decimal digit string of `n`: no sign, no leading zeros (except for the
/// single digit of zero itself).
pub open spec fn dec_digits(n: nat) -> Seq<char>
    decreases n,
{
    if n < 10 {
        seq![digit_char(n as int)]
    } else {
        dec_digits(n / 10) + seq![digit_char((n % 10) as int)]
    }
}

/// The digit character of a value between 0 and 9 reads back as that value.
pub proof fn lemma_digit_char_val(d: int)
    requires
        0 <= d <= 9,
    ensures
        is_digit(digit_char(d)),
        digit_val(digit_char(d)) == d,
        digit_char(d) != '+',
        !is_space(digit_char(d)),
{
}

/// The decimal digit string of `n` is a well-formed count whose value is `n`.
pub proof fn lemma_dec_digits_val(n: nat)
    ensures
        dec_digits(n).len() > 0,
        all_digits(dec_digits(n)),
        count_syntax_ok(dec_digits(n)),
        count_val(dec_digits(n)) == n,
        is_token(dec_digits(n)),
    decreases n,
{
    if n < 10 {
        lemma_digit_char_val(n as int);
        let s = dec_digits(n);
        assert(s.drop_last() =~= Seq::<char>::empty());
        assert(digits_val(Seq::<char>::empty()) == 0);
        assert(digits_val(s) == digit_val(s.last()));
        assert(count_digits(s) == s) by {
            assert(s[0] == digit_char(n as int));
        }
        assert(forall|i: int| 0 <= i < s.len() ==> !is_space(s[i]));
    } else {
        lemma_dec_digits_val(n / 10);
        lemma_digit_char_val((n % 10) as int);
        let a = dec_digits(n / 10);
        let s = dec_digits(n);
        assert(s == a + seq![digit_char((n % 10) as int)]);
        assert(s.drop_last() =~= a);
        assert(s.last() == digit_char((n % 10) as int));
        assert(digits_val(s) == digits_val(a) * 10 + (n % 10));
        assert(count_digits(a) == a);
        assert(digits_val(a) == n / 10);
        assert(n / 10 * 10 + n % 10 == n) by (nonlinear_arith);
        assert(all_digits(s)) by {
            assert(forall|i: int| 0 <= i < a.len() ==> is_digit(#[trigger] s[i]));
            assert(is_digit(s[s.len() - 1]));
        }
        assert(count_digits(s) == s) by {
            assert(s[0] == a[0]);
            assert(is_digit(a[0]));
        }
        assert(forall|i: int| 0 <= i < s.len() ==> !#[trigger] is_space(s[i])) by {
            assert(forall|i: int| 0 <= i < a.len() ==> !#[trigger] is_space(a[i]));
        }
    }
}

/// Append the single digit character for `d` to `out`.
fn push_digit(out: &mut String, d: usize)
    requires
        d <= 9,
    ensures
        final(out)@ == old(out)@ + seq![digit_char(d as int)],
{
    let piece: &str = if d == 0 {
        "0"
    } else if d == 1 {
        "1"
    } else if d == 2 {
        "2"
    } else if d == 3 {
        "3"
    } else if d == 4 {
        "4"
    } else if d == 5 {
        "5"
    } else if d == 6 {
        "6"
    } else if d == 7 {
        "7"
    } else if d == 8 {
        "8"
    } else {
        "9"
    };
    proof {
        reveal_strlit("0");
        reveal_strlit("1");
        reveal_strlit("2");
        reveal_strlit("3");
        reveal_strlit("4");
        reveal_strlit("5");
        reveal_strlit("6");
        reveal_strlit("7");
        reveal_strlit("8");
        reveal_strlit("9");
        assert(piece@ =~= seq![digit_char(d as int)]);
    }
    out.append(piece);
}

/// Append the decimal digit string of `n` to `out`.
pub fn push_decimal(out: &mut String, n: usize)
    ensures
        final(out)@ == old(out)@ + dec_digits(n as nat),
    decreases n,
{
    if n >= 10 {
        push_decimal(out, n / 10);
        push_digit(out, n % 10);
        proof {
            assert(old(out)@ + dec_digits((n / 10) as nat) + seq![
                digit_char((n % 10) as int),
            ] =~= old(out)@ + dec_digits(n as nat));
        }
    } else {
        push_digit(out, n);
    }
}

/// The index of the first newline at or after `pos`, or the end of `text` if
/// the rest of the text holds none.
pub open spec fn line_end(text: Seq<char>, pos: int) -> int
    recommends
        0 <= pos <= text.len(),
    decreases text.len() - pos when 0 <= pos <= text.len()
{
    if pos >= text.len() {
        text.len() as int
    } else if text[pos] == '\n' {
        pos
    } else {
        line_end(text, pos + 1)
    }
}

/// The text of the line that starts at `pos`, without its newline.
pub open spec fn line_at(text: Seq<char>, pos: int) -> Seq<char> {
    text.subrange(pos, line_end(text, pos))
}

/// The position just after the line that starts at `pos`: past its newline,
/// or the end of the text when the last line is unterminated.
pub open spec fn next_pos(text: Seq<char>, pos: int) -> int {
    if line_end(text, pos) < text.len() {
        line_end(text, pos) + 1
    } else {
        text.len() as int
    }
}

/// The end of the line starting at `pos` lies between `pos` and the end of
/// the text, and the line holds no newline.
pub proof fn lemma_line_end_bounds(text: Seq<char>, pos: int)
    requires
        0 <= pos <= text.len(),
    ensures
        pos <= line_end(text, pos) <= text.len(),
        forall|m: int| pos <= m < line_end(text, pos) ==> text[m] != '\n',
        line_end(text, pos) == text.len() || text[line_end(text, pos)] == '\n',
        pos < text.len() ==> pos < next_pos(text, pos) <= text.len(),
    decreases text.len() - pos,
{
    if pos < text.len() && text[pos] != '\n' {
        lemma_line_end_bounds(text, pos + 1);
    }
}

/// The first newline at or after `pos` is at `e` exactly when no position
/// before `e` holds one and `e` is a newline or the end of the text.
pub proof fn lemma_line_end_at(text: Seq<char>, pos: int, e: int)
    requires
        0 <= pos <= e <= text.len(),
        forall|m: int| pos <= m < e ==> text[m] != '\n',
        e == text.len() || text[e] == '\n',
    ensures
        line_end(text, pos) == e,
    decreases e - pos,
{
    if pos < e {
        lemma_line_end_at(text, pos + 1, e);
    }
}

/// The position after skipping `k` whole lines, starting at `pos`.
pub open spec fn skip_lines(text: Seq<char>, pos: int, k: nat) -> int
    decreases k,
{
    if k == 0 {
        pos
    } else {
        skip_lines(text, next_pos(text, pos), (k - 1) as nat)
    }
}

/// Skipping one more line is taking `next_pos` of the previous stop.
pub proof fn lemma_skip_lines_snoc(text: Seq<char>, pos: int, k: nat)
    ensures
        skip_lines(text, pos, k + 1) == next_pos(text, skip_lines(text, pos, k)),
    decreases k,
{
    assert(skip_lines(text, pos, k + 1) == skip_lines(text, next_pos(text, pos), k));
    if k > 0 {
        lemma_skip_lines_snoc(text, next_pos(text, pos), (k - 1) as nat);
        assert(skip_lines(text, pos, k) == skip_lines(text, next_pos(text, pos), (k - 1) as nat));
    } else {
        assert(skip_lines(text, next_pos(text, pos), 0) == next_pos(text, pos));
        assert(skip_lines(text, pos, 0) == pos);
    }
}

/// Skipping `a + b` lines is skipping `a`, then `b`.
pub proof fn lemma_skip_lines_add(text: Seq<char>, pos: int, a: nat, b: nat)
    ensures
        skip_lines(text, pos, a + b) == skip_lines(text, skip_lines(text, pos, a), b),
    decreases a,
{
    if a > 0 {
        lemma_skip_lines_add(text, next_pos(text, pos), (a - 1) as nat, b);
    }
}

/// Whether two strings hold the same characters.
pub fn str_eq(a: &str, b: &str) -> (r: bool)
    ensures
        r == (a@ == b@),
{
    let la = a.unicode_len();
    let lb = b.unicode_len();
    if la != lb {
        return false;
    }
    let mut i: usize = 0;
    while i < la
        invariant
            0 <= i <= la,
            la == a@.len(),
            la == b@.len(),
            forall|m: int| 0 <= m < i ==> a@[m] == b@[m],
        decreases la - i,
    {
        if a.get_char(i) != b.get_char(i) {
            return false;
        }
        i = i + 1;
    }
    proof {
        assert(a@ =~= b@);
    }
    true
}

} // verus!
