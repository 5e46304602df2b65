//! Character-level string utilities with exact specifications.
use vstd::prelude::*;

verus! {

// ---------------------------------------------------------------------------
// Specifications
// ---------------------------------------------------------------------------

/// `p` is a prefix of `s`.
pub open spec fn has_prefix(s: Seq<char>, p: Seq<char>) -> bool {
    p.len() <= s.len() && s.subrange(0, p.len() as int) == p
}

/// `p` is a suffix of `s`.
pub open spec fn has_suffix(s: Seq<char>, p: Seq<char>) -> bool {
    p.len() <= s.len() && s.subrange(s.len() - p.len(), s.len() as int) == p
}

/// `p` occurs in `s` starting at position `i`.
pub open spec fn occurs_at(s: Seq<char>, p: Seq<char>, i: int) -> bool {
    0 <= i && i + p.len() <= s.len() && s.subrange(i, i + p.len()) == p
}

/// `p` occurs somewhere in `s`.
pub open spec fn has_infix(s: Seq<char>, p: Seq<char>) -> bool {
    exists|i: int| occurs_at(s, p, i)
}

/// `s` with every trailing `c` removed.
pub open spec fn trim_end_char(s: Seq<char>, c: char) -> Seq<char>
    decreases s.len(),
{
    if s.len() > 0 && s.last() == c {
        trim_end_char(s.drop_last(), c)
    } else {
        s
    }
}

/// `s` without its prefix `p` when it has one, else `s` itself.
pub open spec fn strip_prefix_or_self(s: Seq<char>, p: Seq<char>) -> Seq<char> {
    if has_prefix(s, p) {
        s.subrange(p.len() as int, s.len() as int)
    } else {
        s
    }
}

/// `s` without its suffix `p` when it has one, else `s` itself.
pub open spec fn strip_suffix_or_self(s: Seq<char>, p: Seq<char>) -> Seq<char> {
    if has_suffix(s, p) {
        s.subrange(0, s.len() - p.len())
    } else {
        s
    }
}

/// The pieces of `s` between occurrences of `sep` (an empty string has one empty piece).
pub open spec fn split_on(s: Seq<char>, sep: char) -> Seq<Seq<char>>
    decreases s.len(),
{
    if s.len() == 0 {
        seq![Seq::<char>::empty()]
    } else if s.last() == sep {
        split_on(s.drop_last(), sep).push(Seq::<char>::empty())
    } else {
        let p = split_on(s.drop_last(), sep);
        p.update(p.len() - 1, p.last().push(s.last()))
    }
}

/// A line with a trailing carriage return removed.
pub open spec fn strip_cr(line: Seq<char>) -> Seq<char> {
    if line.len() > 0 && line.last() == '\r' {
        line.drop_last()
    } else {
        line
    }
}

/// The lines of `s`: split at `\n`, a `\r` before the `\n` removed, and no
/// empty line after a final terminator (so the empty text has no lines).
pub open spec fn lines_of(s: Seq<char>) -> Seq<Seq<char>> {
    let parts = split_on(s, '\n');
    let done = parts.drop_last().map_values(|l: Seq<char>| strip_cr(l));
    if parts.last().len() > 0 {
        done.push(parts.last())
    } else {
        done
    }
}

/// The characters with the Unicode `White_Space` property (those for which
/// `char::is_whitespace` holds).
pub open spec fn is_white_space(c: char) -> bool {
    ||| ('\u{9}' <= c && c <= '\u{d}')
    ||| c == ' '
    ||| c == '\u{85}'
    ||| c == '\u{a0}'
    ||| c == '\u{1680}'
    ||| ('\u{2000}' <= c && c <= '\u{200a}')
    ||| c == '\u{2028}'
    ||| c == '\u{2029}'
    ||| c == '\u{202f}'
    ||| c == '\u{205f}'
    ||| c == '\u{3000}'
}

/// The maximal runs of non-white-space characters of `s`, in order.
pub open spec fn words_of(s: Seq<char>) -> Seq<Seq<char>>
    decreases s.len(),
{
    if s.len() == 0 {
        Seq::<Seq<char>>::empty()
    } else if is_white_space(s.last()) {
        words_of(s.drop_last())
    } else if s.len() >= 2 && !is_white_space(s[s.len() - 2]) {
        let w = words_of(s.drop_last());
        w.update(w.len() - 1, w.last().push(s.last()))
    } else {
        words_of(s.drop_last()).push(seq![s.last()])
    }
}

/// `c` is one of `0` to `9`.
pub open spec fn is_digit(c: char) -> bool {
    '0' <= c && c <= '9'
}

/// Every character of `s` is one of `0` to `9` (vacuously so for the empty text).
pub open spec fn all_digits(s: Seq<char>) -> bool {
    forall|i: int| 0 <= i < s.len() ==> is_digit(#[trigger] s[i])
}

/// The value of a digit character.
pub open spec fn digit_value(c: char) -> int {
    (c as int) - ('0' as int)
}

/// The number that a string of decimal digits denotes.
pub open spec fn digits_value(s: Seq<char>) -> int
    decreases s.len(),
{
    if s.len() == 0 {
        0
    } else {
        digits_value(s.drop_last()) * 10 + digit_value(s.last())
    }
}

/// What `u64::from_str` gives: an optional `+`, then at least one decimal
/// digit, denoting a value that fits in 64 bits.
pub open spec fn parse_u64_spec(s: Seq<char>) -> Option<u64> {
    let body = if s.len() > 0 && s[0] == '+' {
        s.drop_first()
    } else {
        s
    };
    if body.len() > 0 && all_digits(body) && digits_value(body) <= u64::MAX {
        Some(digits_value(body) as u64)
    } else {
        None
    }
}

/// The character of a decimal digit.
pub open spec fn digit_char(d: nat) -> char {
    if d == 0 {
        '0'
    } else if d == 1 {
        '1'
    } else if d == 2 {
        '2'
    } else if d == 3 {
        '3'
    } else if d == 4 {
        '4'
    } else if d == 5 {
        '5'
    } else if d == 6 {
        '6'
    } else if d == 7 {
        '7'
    } else if d == 8 {
        '8'
    } else {
        '9'
    }
}

/// The decimal rendering of `n`, without leading zeros.
pub open spec fn decimal(n: nat) -> Seq<char>
    decreases n,
{
    if n < 10 {
        seq![digit_char(n)]
    } else {
        decimal(n / 10).push(digit_char(n % 10))
    }
}

/// `s` with every `\n` followed by a tab.
pub open spec fn indent_newlines(s: Seq<char>) -> Seq<char>
    decreases s.len(),
{
    if s.len() == 0 {
        Seq::<char>::empty()
    } else if s.last() == '\n' {
        indent_newlines(s.drop_last()) + seq!['\n', '\t']
    } else {
        indent_newlines(s.drop_last()).push(s.last())
    }
}

/// The items joined with `sep` between consecutive items.
pub open spec fn join(items: Seq<Seq<char>>, sep: Seq<char>) -> Seq<char>
    decreases items.len(),
{
    if items.len() == 0 {
        Seq::<char>::empty()
    } else if items.len() == 1 {
        items[0]
    } else {
        join(items.drop_last(), sep) + sep + items.last()
    }
}

/// The views of a sequence of strings.
pub open spec fn views(v: Seq<String>) -> Seq<Seq<char>> {
    v.map_values(|s: String| s@)
}

// ---------------------------------------------------------------------------
// Trusted std operation
// ---------------------------------------------------------------------------

/// Appends one character to a string.
/// Trusted: `String::push`, documented to append the character at the end.
#[verifier::external_body]
pub(crate) fn push_char(s: &mut String, c: char)
    ensures
        final(s)@ == old(s)@.push(c),
{
    s.push(c);
}

// ---------------------------------------------------------------------------
// Executable functions
// ---------------------------------------------------------------------------

/// The characters of a string slice, in order.
pub fn chars_of(s: &str) -> (r: Vec<char>)
    ensures
        r@ == s@,
{
    let mut r: Vec<char> = Vec::new();
    for c in it: s.chars()
        invariant
            r@ == it.seq().take(it.index() as int),
    {
        r.push(c);
    }
    r
}

/// Appends the characters `cs[from..to]` to `out`.
pub fn push_range(out: &mut String, cs: &Vec<char>, from: usize, to: usize)
    requires
        from <= to <= cs@.len(),
    ensures
        final(out)@ == old(out)@ + cs@.subrange(from as int, to as int),
{
    let mut i = from;
    while i < to
        invariant
            from <= i <= to <= cs@.len(),
            out@ == old(out)@ + cs@.subrange(from as int, i as int),
        decreases to - i,
    {
        push_char(out, cs[i]);
        i = i + 1;
        assert(cs@.subrange(from as int, i as int) =~= cs@.subrange(from as int, (i - 1) as int).push(
            cs@[i - 1],
        ));
    }
}

/// A string holding the characters `cs[from..to]`.
pub fn string_of_range(cs: &Vec<char>, from: usize, to: usize) -> (r: String)
    requires
        from <= to <= cs@.len(),
    ensures
        r@ == cs@.subrange(from as int, to as int),
{
    let mut r = String::new();
    push_range(&mut r, cs, from, to);
    assert(r@ =~= cs@.subrange(from as int, to as int));
    r
}

/// Appends a string slice to `out`.
pub fn push_str(out: &mut String, s: &str)
    ensures
        final(out)@ == old(out)@ + s@,
{
    let cs = chars_of(s);
    push_range(out, &cs, 0, cs.len());
    assert(cs@.subrange(0, cs@.len() as int) =~= cs@);
}

/// An owned copy of a string slice.
pub fn owned(s: &str) -> (r: String)
    ensures
        r@ == s@,
{
    let mut r = String::new();
    push_str(&mut r, s);
    assert(r@ =~= s@);
    r
}

/// Whether `cs[at..]` begins with `p`.
pub fn occurs_at_exec(cs: &Vec<char>, p: &Vec<char>, at: usize) -> (r: bool)
    requires
        at <= cs@.len(),
    ensures
        r == occurs_at(cs@, p@, at as int),
{
    if p.len() > cs.len() - at {
        return false;
    }
    let mut j: usize = 0;
    while j < p.len()
        invariant
            at + p@.len() <= cs.len(),
            cs.len() == cs@.len(),
            j <= p@.len(),
            forall|k: int| 0 <= k < j ==> cs@[at + k] == p@[k],
        decreases p@.len() - j,
    {
        if cs[at + j] != p[j] {
            assert(cs@.subrange(at as int, at + p@.len())[j as int] != p@[j as int]);
            return false;
        }
        j = j + 1;
    }
    assert(cs@.subrange(at as int, at + p@.len()) =~= p@);
    true
}

/// Whether `s` begins with `p`.
pub fn starts_with(s: &str, p: &str) -> (r: bool)
    ensures
        r == has_prefix(s@, p@),
{
    let cs = chars_of(s);
    let ps = chars_of(p);
    occurs_at_exec(&cs, &ps, 0)
}

/// Whether `s` ends with `p`.
pub fn ends_with(s: &str, p: &str) -> (r: bool)
    ensures
        r == has_suffix(s@, p@),
{
    let cs = chars_of(s);
    let ps = chars_of(p);
    if ps.len() > cs.len() {
        return false;
    }
    occurs_at_exec(&cs, &ps, cs.len() - ps.len())
}

/// Whether `p` occurs in `s`.
pub fn contains(s: &str, p: &str) -> (r: bool)
    ensures
        r == has_infix(s@, p@),
{
    let cs = chars_of(s);
    let ps = chars_of(p);
    if ps.len() > cs.len() {
        assert forall|i: int| !occurs_at(s@, p@, i) by {}
        return false;
    }
    if ps.len() == 0 {
        assert(occurs_at(s@, p@, 0)) by {
            assert(s@.subrange(0, 0) =~= p@);
        }
        return true;
    }
    let mut i: usize = 0;
    while i <= cs.len() - ps.len()
        invariant
            cs@ == s@,
            ps@ == p@,
            1 <= ps@.len() <= cs@.len(),
            i <= cs@.len() - ps@.len() + 1,
            forall|k: int| 0 <= k < i ==> !occurs_at(s@, p@, k),
        decreases cs@.len() - ps@.len() + 1 - i,
    {
        if occurs_at_exec(&cs, &ps, i) {
            return true;
        }
        i = i + 1;
    }
    assert forall|k: int| !occurs_at(s@, p@, k) by {
        if occurs_at(s@, p@, k) {
            assert(k < i);
        }
    }
    false
}

/// Whether two string slices hold the same characters.
pub fn same_text(a: &str, b: &str) -> (r: bool)
    ensures
        r == (a@ == b@),
{
    let x = owned(a);
    let y = owned(b);
    x == y
}

/// The index just past the last character of `cs[..end]` that is not `c`.
fn trimmed_end(cs: &Vec<char>, c: char, end: usize) -> (r: usize)
    requires
        end <= cs@.len(),
    ensures
        r <= end,
        cs@.subrange(0, r as int) == trim_end_char(cs@.subrange(0, end as int), c),
    decreases end,
{
    if end > 0 && cs[end - 1] == c {
        assert(cs@.subrange(0, end as int).drop_last() =~= cs@.subrange(0, end - 1));
        trimmed_end(cs, c, end - 1)
    } else {
        end
    }
}

/// `s` with every trailing `c` removed (`str::trim_end_matches` with a character).
pub fn trim_end_matches(s: &str, c: char) -> (r: String)
    ensures
        r@ == trim_end_char(s@, c),
{
    let cs = chars_of(s);
    let end = trimmed_end(&cs, c, cs.len());
    assert(cs@.subrange(0, cs@.len() as int) =~= cs@);
    string_of_range(&cs, 0, end)
}

/// `s` without the prefix `p` when present, else `s` (`strip_prefix(..).unwrap_or(..)`).
pub fn strip_prefix_or(s: &str, p: &str) -> (r: String)
    ensures
        r@ == strip_prefix_or_self(s@, p@),
{
    let cs = chars_of(s);
    let ps = chars_of(p);
    if occurs_at_exec(&cs, &ps, 0) {
        string_of_range(&cs, ps.len(), cs.len())
    } else {
        let r = string_of_range(&cs, 0, cs.len());
        assert(cs@.subrange(0, cs@.len() as int) =~= cs@);
        r
    }
}

/// `s` without the suffix `p` when present, else `s` (`strip_suffix(..).unwrap_or(..)`).
pub fn strip_suffix_or(s: &str, p: &str) -> (r: String)
    ensures
        r@ == strip_suffix_or_self(s@, p@),
{
    let cs = chars_of(s);
    let ps = chars_of(p);
    assert(cs@.subrange(0, cs@.len() as int) =~= cs@);
    if ps.len() <= cs.len() && occurs_at_exec(&cs, &ps, cs.len() - ps.len()) {
        string_of_range(&cs, 0, cs.len() - ps.len())
    } else {
        string_of_range(&cs, 0, cs.len())
    }
}

/// The lines of `s` (`str::lines`).
pub fn lines(s: &str) -> (r: Vec<String>)
    ensures
        views(r@) == lines_of(s@),
{
    let cs = chars_of(s);
    let mut out: Vec<String> = Vec::new();
    let mut cur = String::new();
    let ghost mut raw: Seq<Seq<char>> = Seq::empty();
    let mut i: usize = 0;
    while i < cs.len()
        invariant
            cs@ == s@,
            i <= cs@.len(),
            split_on(cs@.subrange(0, i as int), '\n') == raw.push(cur@),
            views(out@) == raw.map_values(|l: Seq<char>| strip_cr(l)),
        decreases cs@.len() - i,
    {
        let c = cs[i];
        assert(cs@.subrange(0, i + 1).drop_last() =~= cs@.subrange(0, i as int));
        if c == '\n' {
            let cv = chars_of(cur.as_str());
            let mut end = cv.len();
            if end > 0 && cv[end - 1] == '\r' {
                end = end - 1;
            }
            let line = string_of_range(&cv, 0, end);
            assert(line@ == strip_cr(cur@)) by {
                assert(cv@.subrange(0, cv@.len() as int) =~= cv@);
                assert(cv@.drop_last() =~= cv@.subrange(0, cv@.len() - 1));
            }
            let ghost old_out = out@;
            out.push(line);
            assert(views(out@) =~= views(old_out).push(line@));
            proof {
                assert(raw.push(cur@).map_values(|l: Seq<char>| strip_cr(l)) =~= raw.map_values(
                    |l: Seq<char>| strip_cr(l),
                ).push(strip_cr(cur@)));
                raw = raw.push(cur@);
            }
            cur = String::new();
            assert(views(out@) =~= raw.map_values(|l: Seq<char>| strip_cr(l)));
            assert(split_on(cs@.subrange(0, i + 1), '\n') =~= raw.push(cur@));
        } else {
            push_char(&mut cur, c);
            assert(split_on(cs@.subrange(0, i + 1), '\n') =~= raw.push(cur@));
        }
        i = i + 1;
    }
    assert(cs@.subrange(0, cs@.len() as int) =~= cs@);
    let ghost parts = split_on(s@, '\n');
    assert(parts.drop_last() =~= raw);
    let cl = chars_of(cur.as_str());
    if cl.len() > 0 {
        let ghost before = out@;
        out.push(cur);
        assert(views(out@) =~= views(before).push(parts.last()));
    } else {
        assert(parts.last().len() == 0);
    }
    out
}

/// The white-space-separated words of `s` (`str::split_whitespace`).
pub fn words(s: &str) -> (r: Vec<String>)
    ensures
        views(r@) == words_of(s@),
{
    let cs = chars_of(s);
    let mut out: Vec<String> = Vec::new();
    let mut cur = String::new();
    let mut in_word = false;
    let mut i: usize = 0;
    while i < cs.len()
        invariant
            cs@ == s@,
            i <= cs@.len(),
            in_word ==> i > 0 && !is_white_space(cs@[i - 1]),
            !in_word ==> (i == 0 || is_white_space(cs@[i - 1])),
            in_word ==> views(out@).push(cur@) == words_of(cs@.subrange(0, i as int)),
            !in_word ==> views(out@) == words_of(cs@.subrange(0, i as int)),
            !in_word ==> cur@.len() == 0,
        decreases cs@.len() - i,
    {
        let c = cs[i];
        let ws = is_whitespace_char(c);
        let ghost pre = cs@.subrange(0, i as int);
        let ghost nxt = cs@.subrange(0, i + 1);
        assert(nxt.drop_last() =~= pre);
        assert(nxt.last() == c);
        assert(i >= 1 ==> nxt[i - 1] == cs@[i - 1]);
        if ws {
            if in_word {
                let ghost old_out = out@;
                out.push(cur);
                assert(views(out@) =~= views(old_out).push(cur@));
                cur = String::new();
                in_word = false;
            }
            assert(views(out@) =~= words_of(cs@.subrange(0, i + 1)));
        } else {
            push_char(&mut cur, c);
            if in_word {
                assert(words_of(nxt) =~= words_of(pre).update(
                    words_of(pre).len() - 1,
                    words_of(pre).last().push(c),
                ));
                assert(views(out@).push(cur@) =~= words_of(cs@.subrange(0, i + 1)));
            } else {
                assert(cur@ =~= seq![c]);
                assert(words_of(nxt) =~= words_of(pre).push(seq![c]));
                assert(views(out@).push(cur@) =~= words_of(cs@.subrange(0, i + 1)));
            }
            in_word = true;
        }
        i = i + 1;
    }
    assert(cs@.subrange(0, cs@.len() as int) =~= cs@);
    if in_word {
        let ghost old_out = out@;
        out.push(cur);
        assert(views(out@) =~= views(old_out).push(cur@));
        assert(views(out@) =~= words_of(s@));
    }
    out
}

/// Whether `c` has the Unicode `White_Space` property.
pub fn is_whitespace_char(c: char) -> (r: bool)
    ensures
        r == is_white_space(c),
{
    ('\u{9}' <= c && c <= '\u{d}') || c == ' ' || c == '\u{85}' || c == '\u{a0}' || c == '\u{1680}'
        || ('\u{2000}' <= c && c <= '\u{200a}') || c == '\u{2028}' || c == '\u{2029}' || c
        == '\u{202f}' || c == '\u{205f}' || c == '\u{3000}'
}

/// The character of a decimal digit.
fn digit_to_char(d: u64) -> (c: char)
    requires
        d < 10,
    ensures
        c == digit_char(d as nat),
{
    if d == 0 {
        '0'
    } else if d == 1 {
        '1'
    } else if d == 2 {
        '2'
    } else if d == 3 {
        '3'
    } else if d == 4 {
        '4'
    } else if d == 5 {
        '5'
    } else if d == 6 {
        '6'
    } else if d == 7 {
        '7'
    } else if d == 8 {
        '8'
    } else {
        '9'
    }
}

/// Appends the decimal rendering of `n` to `out`.
pub fn push_decimal(out: &mut String, n: u64)
    ensures
        final(out)@ == old(out)@ + decimal(n as nat),
    decreases n,
{
    if n >= 10 {
        push_decimal(out, n / 10);
    }
    push_char(out, digit_to_char(n % 10));
    assert(out@ =~= old(out)@ + decimal(n as nat));
}

/// The decimal rendering of `n` (`n.to_string()`).
pub fn decimal_string(n: u64) -> (r: String)
    ensures
        r@ == decimal(n as nat),
{
    let mut r = String::new();
    push_decimal(&mut r, n);
    assert(r@ =~= decimal(n as nat));
    r
}

/// Whether every character of `s` is a decimal digit.
pub fn all_digits_exec(cs: &Vec<char>, from: usize) -> (r: bool)
    requires
        from <= cs@.len(),
    ensures
        r == all_digits(cs@.subrange(from as int, cs@.len() as int)),
{
    let mut i = from;
    while i < cs.len()
        invariant
            from <= i <= cs@.len(),
            forall|k: int| from <= k < i ==> is_digit(cs@[k]),
        decreases cs@.len() - i,
    {
        if !(cs[i] >= '0' && cs[i] <= '9') {
            assert(cs@.subrange(from as int, cs@.len() as int)[i - from] == cs@[i as int]);
            return false;
        }
        i = i + 1;
    }
    assert forall|k: int| 0 <= k < cs@.len() - from implies is_digit(
        #[trigger] cs@.subrange(from as int, cs@.len() as int)[k],
    ) by {
        assert(cs@.subrange(from as int, cs@.len() as int)[k] == cs@[from + k]);
    }
    true
}

/// The value of a digit string grows with every digit appended.
proof fn lemma_digits_value_bounds(s: Seq<char>)
    requires
        all_digits(s),
    ensures
        0 <= digits_value(s),
        forall|k: int| 0 <= k <= s.len() ==> digits_value(#[trigger] s.take(k)) <= digits_value(s),
    decreases s.len(),
{
    if s.len() > 0 {
        let t = s.drop_last();
        assert forall|i: int| 0 <= i < t.len() implies is_digit(#[trigger] t[i]) by {
            assert(t[i] == s[i]);
        }
        lemma_digits_value_bounds(t);
        assert(is_digit(s[s.len() - 1]));
        assert forall|k: int| 0 <= k <= s.len() implies digits_value(#[trigger] s.take(k))
            <= digits_value(s) by {
            if k < s.len() {
                assert(s.take(k) =~= t.take(k));
                assert(digits_value(t.take(k)) <= digits_value(t));
            } else {
                assert(s.take(k) =~= s);
            }
        }
        assert(digits_value(t) * 10 >= digits_value(t)) by (nonlinear_arith)
            requires
                digits_value(t) >= 0,
        ;
    }
}

/// Parses an unsigned 64-bit decimal number (`str::parse::<u64>`).
pub fn parse_u64(s: &str) -> (r: Option<u64>)
    ensures
        r == parse_u64_spec(s@),
{
    let cs = chars_of(s);
    let start: usize = if cs.len() > 0 && cs[0] == '+' {
        1
    } else {
        0
    };
    let ghost body = cs@.subrange(start as int, cs@.len() as int);
    assert(body =~= (if s@.len() > 0 && s@[0] == '+' {
        s@.drop_first()
    } else {
        s@
    }));
    if start >= cs.len() {
        return None;
    }
    if !all_digits_exec(&cs, start) {
        return None;
    }
    proof {
        lemma_digits_value_bounds(body);
    }
    let mut value: u64 = 0;
    let mut i = start;
    while i < cs.len()
        invariant
            start <= i <= cs@.len(),
            body == cs@.subrange(start as int, cs@.len() as int),
            all_digits(body),
            forall|k: int| 0 <= k <= body.len() ==> digits_value(#[trigger] body.take(k))
                <= digits_value(body),
            value == digits_value(body.take(i - start)),
            parse_u64_spec(s@) == (if digits_value(body) <= u64::MAX {
                Some(digits_value(body) as u64)
            } else {
                None
            }),
        decreases cs@.len() - i,
    {
        let ghost k = i - start;
        assert(body[k] == cs@[i as int]);
        assert(is_digit(body[k]));
        assert(body.take(k + 1).drop_last() =~= body.take(k));
        assert(body.take(k + 1).last() == cs@[i as int]);
        let d = (cs[i] as u32 - '0' as u32) as u64;
        assert(d == digit_value(cs@[i as int]));
        assert(digits_value(body.take(k + 1)) == value * 10 + d);
        assert(digits_value(body.take(k + 1)) <= digits_value(body));
        match value.checked_mul(10) {
            Some(m) => match m.checked_add(d) {
                Some(v) => {
                    value = v;
                },
                None => {
                    assert(digits_value(body) > u64::MAX);
                    return None;
                },
            },
            None => {
                assert(digits_value(body) > u64::MAX);
                return None;
            },
        }
        i = i + 1;
    }
    assert(body.take(body.len() as int) =~= body);
    Some(value)
}

/// Appends `s` to `out` with a tab after every newline (`replace('\n', "\n\t")`).
pub fn push_indented(out: &mut String, s: &str)
    ensures
        final(out)@ == old(out)@ + indent_newlines(s@),
{
    let cs = chars_of(s);
    let mut i: usize = 0;
    while i < cs.len()
        invariant
            cs@ == s@,
            i <= cs@.len(),
            out@ == old(out)@ + indent_newlines(cs@.subrange(0, i as int)),
        decreases cs@.len() - i,
    {
        assert(cs@.subrange(0, i + 1).drop_last() =~= cs@.subrange(0, i as int));
        push_char(out, cs[i]);
        if cs[i] == '\n' {
            push_char(out, '\t');
        }
        assert(out@ =~= old(out)@ + indent_newlines(cs@.subrange(0, i + 1)));
        i = i + 1;
    }
    assert(cs@.subrange(0, cs@.len() as int) =~= cs@);
}

/// Appends the items joined with `sep` to `out` (`join`).
pub fn push_joined(out: &mut String, items: &Vec<String>, sep: &str)
    ensures
        final(out)@ == old(out)@ + join(views(items@), sep@),
{
    let mut i: usize = 0;
    while i < items.len()
        invariant
            i <= items@.len(),
            out@ == old(out)@ + join(views(items@.take(i as int)), sep@),
        decreases items@.len() - i,
    {
        assert(views(items@.take(i + 1)).drop_last() =~= views(items@.take(i as int)));
        assert(views(items@.take(i + 1)).last() == items@[i as int]@);
        if i > 0 {
            push_str(out, sep);
        }
        push_str(out, items[i].as_str());
        if i == 0 {
            assert(views(items@.take(1)) =~= seq![items@[0]@]);
        }
        assert(out@ =~= old(out)@ + join(views(items@.take(i + 1)), sep@));
        i = i + 1;
    }
    assert(items@.take(items@.len() as int) =~= items@);
}

} // verus!
