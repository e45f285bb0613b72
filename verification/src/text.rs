//! Character-level text handling shared by the parsers and formatters:
//! digit values, splitting on a separator, whitespace trimming, line
//! splitting and decimal rendering.

use vstd::prelude::*;

verus! {

// ---------------------------------------------------------------------------
// Digits
// ---------------------------------------------------------------------------

pub open spec fn is_ascii_digit(c: char) -> bool {
    '0' <= c && c <= '9'
}

pub open spec fn digit_value(c: char) -> int {
    (c as int) - ('0' as int)
}

pub open spec fn all_ascii_digits(s: Seq<char>) -> bool {
    forall|i: int| 0 <= i < s.len() ==> is_ascii_digit(#[trigger] s[i])
}

/// The number that a string of decimal digits denotes (most significant first).
pub open spec fn decimal_value(s: Seq<char>) -> int
    decreases s.len(),
{
    if s.len() == 0 {
        0
    } else {
        decimal_value(s.drop_last()) * 10 + digit_value(s.last())
    }
}

/// The character of a decimal digit.
pub open spec fn digit_char(d: nat) -> char {
    if d == 0 {
        '0'
    } else if d == 1 {
        '1'
    } else if d == 2 {
        '2'
    } else if d == 3 {
        '3'
    } else if d == 4 {
        '4'
    } else if d == 5 {
        '5'
    } else if d == 6 {
        '6'
    } else if d == 7 {
        '7'
    } else if d == 8 {
        '8'
    } else {
        '9'
    }
}

/// The shortest decimal rendering of `n`, as `{}` prints an unsigned integer.
pub open spec fn decimal_text(n: nat) -> Seq<char>
    decreases n,
{
    if n < 10 {
        seq![digit_char(n)]
    } else {
        decimal_text(n / 10).push(digit_char(n % 10))
    }
}

// ---------------------------------------------------------------------------
// Splitting
// ---------------------------------------------------------------------------

/// The pieces of `s` between occurrences of `sep`, as `str::split` with a
/// character pattern yields them: `n` separators give `n + 1` pieces, some
/// of which may be empty.
pub open spec fn split_on(s: Seq<char>, sep: char) -> Seq<Seq<char>>
    decreases s.len(),
{
    if s.len() == 0 {
        seq![Seq::<char>::empty()]
    } else {
        let rest = split_on(s.drop_last(), sep);
        if s.last() == sep {
            rest.push(Seq::<char>::empty())
        } else {
            rest.update(rest.len() - 1, rest.last().push(s.last()))
        }
    }
}

pub proof fn lemma_split_on_nonempty(s: Seq<char>, sep: char)
    ensures
        split_on(s, sep).len() >= 1,
    decreases s.len(),
{
    if s.len() > 0 {
        lemma_split_on_nonempty(s.drop_last(), sep);
    }
}

/// Ranges `[start, end)` of `chars` that correspond to a list of pieces.
pub open spec fn ranges_hold(chars: Seq<char>, ranges: Seq<(usize, usize)>, pieces: Seq<Seq<char>>) -> bool {
    &&& ranges.len() == pieces.len()
    &&& forall|i: int|
        0 <= i < ranges.len() ==> {
            &&& (#[trigger] ranges[i]).0 <= ranges[i].1 <= chars.len()
            &&& chars.subrange(ranges[i].0 as int, ranges[i].1 as int) == pieces[i]
        }
}

/// Splits `chars[lo..hi]` on `sep`, giving the range of each piece.
pub fn split_ranges(chars: &Vec<char>, lo: usize, hi: usize, sep: char) -> (ranges: Vec<(usize, usize)>)
    requires
        lo <= hi <= chars.len(),
    ensures
        ranges_hold(chars@, ranges@, split_on(chars@.subrange(lo as int, hi as int), sep)),
        forall|i: int| 0 <= i < ranges@.len() ==> lo <= (#[trigger] ranges@[i]).0,
        forall|i: int| 0 <= i < ranges@.len() ==> (#[trigger] ranges@[i]).1 <= hi,
{
    let mut ranges: Vec<(usize, usize)> = Vec::new();
    let mut start: usize = lo;
    let mut j: usize = lo;
    while j < hi
        invariant
            lo <= start <= j <= hi <= chars.len(),
            split_on(chars@.subrange(lo as int, j as int), sep).len() == ranges@.len() + 1,
            ranges_hold(
                chars@,
                ranges@,
                split_on(chars@.subrange(lo as int, j as int), sep).take(ranges@.len() as int),
            ),
            split_on(chars@.subrange(lo as int, j as int), sep)[ranges@.len() as int]
                == chars@.subrange(start as int, j as int),
            forall|i: int| 0 <= i < ranges@.len() ==> lo <= (#[trigger] ranges@[i]).0,
            forall|i: int| 0 <= i < ranges@.len() ==> (#[trigger] ranges@[i]).1 <= j,
        decreases hi - j,
    {
        let ghost prev = split_on(chars@.subrange(lo as int, j as int), sep);
        let ghost next_s = chars@.subrange(lo as int, j + 1);
        assert(next_s.drop_last() =~= chars@.subrange(lo as int, j as int));
        assert(next_s.last() == chars@[j as int]);
        if chars[j] == sep {
            ranges.push((start, j));
            start = j + 1;
            assert(split_on(next_s, sep) == prev.push(Seq::<char>::empty()));
            assert(chars@.subrange(start as int, j + 1) =~= Seq::<char>::empty());
            assert(split_on(next_s, sep).take(ranges@.len() as int) =~= prev);
        } else {
            assert(chars@.subrange(start as int, j + 1) =~= chars@.subrange(start as int, j as int).push(
                chars@[j as int],
            ));
            assert(split_on(next_s, sep).take(ranges@.len() as int) =~= prev.take(ranges@.len() as int));
        }
        j = j + 1;
    }
    ranges.push((start, hi));
    assert(split_on(chars@.subrange(lo as int, hi as int), sep).take(ranges@.len() as int)
        =~= split_on(chars@.subrange(lo as int, hi as int), sep));
    ranges
}

// ---------------------------------------------------------------------------
// Whitespace and trimming
// ---------------------------------------------------------------------------

/// `char::is_whitespace`: the characters with the Unicode `White_Space` property.
pub open spec fn is_whitespace(c: char) -> bool {
    ||| ('\u{9}' <= c && c <= '\u{d}')
    ||| c == ' '
    ||| c == '\u{85}'
    ||| c == '\u{a0}'
    ||| c == '\u{1680}'
    ||| ('\u{2000}' <= c && c <= '\u{200a}')
    ||| c == '\u{2028}'
    ||| c == '\u{2029}'
    ||| c == '\u{202f}'
    ||| c == '\u{205f}'
    ||| c == '\u{3000}'
}

pub fn is_whitespace_char(c: char) -> (r: bool)
    ensures
        r == is_whitespace(c),
{
    ('\u{9}' <= c && c <= '\u{d}') || c == ' ' || c == '\u{85}' || c == '\u{a0}' || c == '\u{1680}'
        || ('\u{2000}' <= c && c <= '\u{200a}') || c == '\u{2028}' || c == '\u{2029}' || c
        == '\u{202f}' || c == '\u{205f}' || c == '\u{3000}'
}

pub open spec fn trim_start(s: Seq<char>) -> Seq<char>
    decreases s.len(),
{
    if s.len() > 0 && is_whitespace(s[0]) {
        trim_start(s.drop_first())
    } else {
        s
    }
}

pub open spec fn trim_end(s: Seq<char>) -> Seq<char>
    decreases s.len(),
{
    if s.len() > 0 && is_whitespace(s.last()) {
        trim_end(s.drop_last())
    } else {
        s
    }
}

/// `str::trim`: `s` without leading and trailing whitespace.
pub open spec fn trim(s: Seq<char>) -> Seq<char> {
    trim_end(trim_start(s))
}

/// The range of `chars[lo..hi]` that remains after trimming whitespace.
pub fn trim_range(chars: &Vec<char>, lo: usize, hi: usize) -> (r: (usize, usize))
    requires
        lo <= hi <= chars.len(),
    ensures
        lo <= r.0 <= r.1 <= hi,
        chars@.subrange(r.0 as int, r.1 as int) == trim(chars@.subrange(lo as int, hi as int)),
{
    let mut a: usize = lo;
    while a < hi && is_whitespace_char(chars[a])
        invariant
            lo <= a <= hi <= chars.len(),
            trim_start(chars@.subrange(lo as int, hi as int)) == trim_start(
                chars@.subrange(a as int, hi as int),
            ),
        decreases hi - a,
    {
        assert(chars@.subrange(a as int, hi as int).drop_first() =~= chars@.subrange(
            a + 1,
            hi as int,
        ));
        a = a + 1;
    }
    let mut b: usize = hi;
    while b > a && is_whitespace_char(chars[b - 1])
        invariant
            lo <= a <= b <= hi <= chars.len(),
            trim(chars@.subrange(lo as int, hi as int)) == trim_end(chars@.subrange(a as int, b as int)),
        decreases b - a,
    {
        assert(chars@.subrange(a as int, b as int).drop_last() =~= chars@.subrange(
            a as int,
            b - 1,
        ));
        b = b - 1;
    }
    (a, b)
}

// ---------------------------------------------------------------------------
// Lines
// ---------------------------------------------------------------------------

/// A line that ended with `"\n"` loses one `'\r'` before it.
pub open spec fn strip_carriage_return(l: Seq<char>) -> Seq<char> {
    if l.len() > 0 && l.last() == '\r' {
        l.drop_last()
    } else {
        l
    }
}

/// `str::lines`: the lines of `s`, split at `"\n"` or `"\r\n"`; a final
/// line ending is optional and adds no empty line.
pub open spec fn text_lines(s: Seq<char>) -> Seq<Seq<char>> {
    let parts = split_on(s, '\n');
    let full = parts.take(parts.len() - 1).map_values(|l: Seq<char>| strip_carriage_return(l));
    if parts.last().len() == 0 {
        full
    } else {
        full.push(parts.last())
    }
}

// ---------------------------------------------------------------------------
// Strings and characters
// ---------------------------------------------------------------------------

/// The characters of `s`, in order.
pub fn chars_of(s: &str) -> (v: Vec<char>)
    ensures
        v@ == s@,
{
    let n = s.unicode_len();
    let mut v: Vec<char> = Vec::new();
    let mut i: usize = 0;
    while i < n
        invariant
            n == s@.len(),
            i <= n,
            v@ == s@.take(i as int),
        decreases n - i,
    {
        v.push(s.get_char(i));
        assert(s@.take(i + 1) =~= s@.take(i as int).push(s@[i as int]));
        i = i + 1;
    }
    assert(s@.take(n as int) =~= s@);
    v
}

/// `String::push`, which appends one character to the end of a string.
#[verifier::external_body]
pub(crate) fn push_char(s: &mut String, c: char)
    ensures
        final(s)@ == old(s)@.push(c),
{
    s.push(c)
}

/// Appends `chars[lo..hi]` to `out`.
pub fn push_range(out: &mut String, chars: &Vec<char>, lo: usize, hi: usize)
    requires
        lo <= hi <= chars.len(),
    ensures
        final(out)@ == old(out)@ + chars@.subrange(lo as int, hi as int),
{
    let mut i: usize = lo;
    while i < hi
        invariant
            lo <= i <= hi <= chars.len(),
            out@ == old(out)@ + chars@.subrange(lo as int, i as int),
        decreases hi - i,
    {
        push_char(out, chars[i]);
        assert(chars@.subrange(lo as int, i + 1) =~= chars@.subrange(lo as int, i as int).push(
            chars@[i as int],
        ));
        i = i + 1;
    }
}

/// A new string holding `chars[lo..hi]`.
pub fn string_of_range(chars: &Vec<char>, lo: usize, hi: usize) -> (s: String)
    requires
        lo <= hi <= chars.len(),
    ensures
        s@ == chars@.subrange(lo as int, hi as int),
{
    let mut s = String::new();
    push_range(&mut s, chars, lo, hi);
    assert(Seq::<char>::empty() + chars@.subrange(lo as int, hi as int) =~= chars@.subrange(
        lo as int,
        hi as int,
    ));
    s
}

/// Whether two strings hold the same characters.
pub fn str_eq(a: &str, b: &str) -> (r: bool)
    ensures
        r == (a@ == b@),
{
    let x = a.to_owned();
    let y = b.to_owned();
    x == y
}

/// The digit `d` as a one-character string.
pub fn digit_char_exec(d: u64) -> (c: char)
    requires
        d < 10,
    ensures
        c == digit_char(d as nat),
{
    if d == 0 {
        '0'
    } else if d == 1 {
        '1'
    } else if d == 2 {
        '2'
    } else if d == 3 {
        '3'
    } else if d == 4 {
        '4'
    } else if d == 5 {
        '5'
    } else if d == 6 {
        '6'
    } else if d == 7 {
        '7'
    } else if d == 8 {
        '8'
    } else {
        '9'
    }
}

/// Appends the decimal rendering of `n` to `out`.
pub fn push_decimal(out: &mut String, n: u64)
    ensures
        final(out)@ == old(out)@ + decimal_text(n as nat),
    decreases n,
{
    if n < 10 {
        push_char(out, digit_char_exec(n));
        assert(old(out)@.push(digit_char(n as nat)) =~= old(out)@ + seq![digit_char(n as nat)]);
    } else {
        push_decimal(out, n / 10);
        push_char(out, digit_char_exec(n % 10));
        assert(old(out)@ + decimal_text((n / 10) as nat).push(digit_char((n % 10) as nat)) =~= (old(
            out,
        )@ + decimal_text((n / 10) as nat)).push(digit_char((n % 10) as nat)));
    }
}

// ---------------------------------------------------------------------------
// Joining
// ---------------------------------------------------------------------------

/// `[String]::join`: the items with `sep` between neighbours.
pub open spec fn join_with(items: Seq<Seq<char>>, sep: Seq<char>) -> Seq<char>
    decreases items.len(),
{
    if items.len() == 0 {
        Seq::empty()
    } else if items.len() == 1 {
        items[0]
    } else {
        join_with(items.drop_last(), sep) + sep + items.last()
    }
}

pub open spec fn string_views(v: Seq<String>) -> Seq<Seq<char>> {
    v.map_values(|s: String| s@)
}

/// Appends the items of `items` to `out`, separated by `sep`.
pub fn push_joined(out: &mut String, items: &Vec<String>, sep: &str)
    ensures
        final(out)@ == old(out)@ + join_with(string_views(items@), sep@),
{
    let ghost views = string_views(items@);
    let mut i: usize = 0;
    while i < items.len()
        invariant
            i <= items.len(),
            views == string_views(items@),
            out@ == old(out)@ + join_with(views.take(i as int), sep@),
        decreases items.len() - i,
    {
        let ghost before = out@;
        if i > 0 {
            out.append(sep);
        }
        out.append(items[i].as_str());
        assert(views.take(i + 1).drop_last() =~= views.take(i as int));
        assert(views[i as int] == items@[i as int]@);
        if i == 0 {
            assert(views.take(1) =~= seq![views[0]]);
            assert(out@ =~= old(out)@ + join_with(views.take(i + 1), sep@));
        } else {
            assert(out@ =~= old(out)@ + join_with(views.take(i + 1), sep@));
        }
        i = i + 1;
    }
    assert(views.take(items.len() as int) =~= views);
}


// ---------------------------------------------------------------------------
// Facts on splitting, joining and decimal text
// ---------------------------------------------------------------------------

/// Splitting at a separator between two parts splits each part apart.
pub proof fn lemma_split_concat(x: Seq<char>, y: Seq<char>, sep: char)
    ensures
        split_on(x + seq![sep] + y, sep) == split_on(x, sep) + split_on(y, sep),
    decreases y.len(),
{
    let s = x + seq![sep] + y;
    if y.len() == 0 {
        assert(s.drop_last() =~= x);
        assert(split_on(s, sep) =~= split_on(x, sep) + split_on(y, sep));
    } else {
        let y0 = y.drop_last();
        lemma_split_concat(x, y0, sep);
        lemma_split_on_nonempty(y0, sep);
        lemma_split_on_nonempty(x, sep);
        assert(s.drop_last() =~= x + seq![sep] + y0);
        assert(s.last() == y.last());
        let a = split_on(x, sep);
        let b = split_on(y0, sep);
        if y.last() == sep {
            assert(split_on(s, sep) =~= a + b.push(Seq::<char>::empty()));
        } else {
            assert((a + b).last() == b.last());
            assert(split_on(s, sep) =~= a + b.update(b.len() - 1, b.last().push(y.last())));
        }
    }
}

/// Text without the separator is a single piece.
pub proof fn lemma_split_without_sep(x: Seq<char>, sep: char)
    requires
        forall|i: int| 0 <= i < x.len() ==> x[i] != sep,
    ensures
        split_on(x, sep) == seq![x],
    decreases x.len(),
{
    if x.len() > 0 {
        lemma_split_without_sep(x.drop_last(), sep);
        assert(x[x.len() - 1] != sep);
        let rest = split_on(x.drop_last(), sep);
        assert(rest == seq![x.drop_last()]);
        assert(split_on(x, sep) == rest.update(rest.len() - 1, rest.last().push(x.last())));
        assert(x.drop_last().push(x.last()) =~= x);
        assert(rest.update(rest.len() - 1, rest.last().push(x.last())) =~= seq![x]);
    } else {
        assert(x =~= Seq::<char>::empty());
    }
}

/// Joining pieces that hold no separator character and splitting the
/// result again gives the pieces back.
pub proof fn lemma_split_join(items: Seq<Seq<char>>, sep: char)
    requires
        items.len() >= 1,
        forall|k: int, i: int| 0 <= k < items.len() && 0 <= i < items[k].len() ==> #[trigger] items[k][i] != sep,
    ensures
        split_on(join_with(items, seq![sep]), sep) == items,
    decreases items.len(),
{
    if items.len() == 1 {
        assert forall|i: int| 0 <= i < items[0].len() implies items[0][i] != sep by {}
        lemma_split_without_sep(items[0], sep);
        assert(split_on(items[0], sep) =~= items);
    } else {
        let front = items.drop_last();
        assert forall|k: int, i: int| 0 <= k < front.len() && 0 <= i < front[k].len() implies #[trigger] front[k][i]
            != sep by {
            assert(front[k] == items[k]);
        }
        lemma_split_join(front, sep);
        let last = items.last();
        assert forall|i: int| 0 <= i < last.len() implies last[i] != sep by {
            assert(items[items.len() - 1][i] != sep);
        }
        lemma_split_without_sep(last, sep);
        lemma_split_concat(join_with(front, seq![sep]), last, sep);
        assert(split_on(join_with(items, seq![sep]), sep) =~= items);
    }
}

/// The character of a digit is a digit of that value.
pub proof fn lemma_digit_char(d: nat)
    requires
        d < 10,
    ensures
        is_ascii_digit(digit_char(d)),
        digit_value(digit_char(d)) == d,
        (digit_char(d) == '0') == (d == 0),
{
}

/// The decimal text of `n` is made of digits, denotes `n`, starts with
/// `0` only for zero, and is as long as `n` needs.
pub proof fn lemma_decimal_text(n: nat)
    ensures
        decimal_text(n).len() >= 1,
        all_ascii_digits(decimal_text(n)),
        decimal_value(decimal_text(n)) == n,
        (decimal_text(n)[0] == '0') == (n == 0),
        n < 10 ==> decimal_text(n).len() == 1,
        n < 100 ==> decimal_text(n).len() <= 2,
        n < 1000 ==> decimal_text(n).len() <= 3,
    decreases n,
{
    if n < 10 {
        lemma_digit_char(n);
        assert(decimal_text(n) =~= seq![digit_char(n)]);
        assert(seq![digit_char(n)].drop_last() =~= Seq::<char>::empty());
        assert(decimal_value(Seq::<char>::empty()) == 0);
        assert(decimal_value(seq![digit_char(n)]) == digit_value(digit_char(n)));
    } else {
        lemma_decimal_text(n / 10);
        lemma_digit_char(n % 10);
        let t = decimal_text(n / 10);
        assert(decimal_text(n) == t.push(digit_char(n % 10)));
        assert(t.push(digit_char(n % 10)).drop_last() =~= t);
        assert(decimal_value(decimal_text(n)) == decimal_value(t) * 10 + digit_value(digit_char(n % 10)));
        assert(n == (n / 10) * 10 + n % 10);
        assert forall|i: int| 0 <= i < decimal_text(n).len() implies is_ascii_digit(#[trigger] decimal_text(n)[i]) by {
            if i < t.len() {
                assert(decimal_text(n)[i] == t[i]);
            }
        }
        assert(decimal_text(n)[0] == t[0]);
    }
}


/// Dropping a final carriage return does not change the trimmed text.
pub proof fn lemma_trim_drop_carriage_return(l: Seq<char>)
    requires
        l.len() > 0,
        l.last() == '\r',
    ensures
        trim(l.drop_last()) == trim(l),
    decreases l.len(),
{
    assert(is_whitespace('\r'));
    if is_whitespace(l[0]) {
        if l.len() == 1 {
            assert(l.drop_first() =~= Seq::<char>::empty());
            assert(l.drop_last() =~= Seq::<char>::empty());
        } else {
            let rest = l.drop_first();
            assert(rest.last() == '\r');
            lemma_trim_drop_carriage_return(rest);
            assert(l.drop_last()[0] == l[0]);
            assert(l.drop_last().drop_first() =~= rest.drop_last());
        }
    } else {
        assert(l.len() > 1);
        assert(l.drop_last()[0] == l[0]);
        assert(trim_start(l) == l);
        assert(trim_start(l.drop_last()) == l.drop_last());
    }
}


/// `s` begins with `p`.
pub open spec fn starts_with(s: Seq<char>, p: Seq<char>) -> bool {
    p.len() <= s.len() && s.take(p.len() as int) == p
}

/// `p` occurs in `s` at index `i`.
pub open spec fn occurs_in_at(s: Seq<char>, p: Seq<char>, i: int) -> bool {
    0 <= i && i + p.len() <= s.len() && s.subrange(i, i + p.len()) == p
}

/// `p` occurs somewhere in `s`.
pub open spec fn contains_text(s: Seq<char>, p: Seq<char>) -> bool {
    exists|i: int| occurs_in_at(s, p, i)
}

/// Text without the character `c` holds no text that has it.
pub proof fn lemma_contains_text_needs_char(s: Seq<char>, p: Seq<char>, k: int)
    requires
        0 <= k < p.len(),
        forall|i: int| 0 <= i < s.len() ==> s[i] != p[k],
    ensures
        !contains_text(s, p),
{
    if contains_text(s, p) {
        let i = choose|i: int| occurs_in_at(s, p, i);
        assert(s.subrange(i, i + p.len())[k] == s[i + k]);
    }
}


/// Text found in `x` is found at the same place in `x` followed by more,
/// and `len(pre)` places later in `pre` followed by `x`.
pub proof fn lemma_occurs_in_context(pre: Seq<char>, x: Seq<char>, post: Seq<char>, p: Seq<char>, i: int)
    requires
        occurs_in_at(x, p, i),
    ensures
        occurs_in_at(pre + x + post, p, i + pre.len()),
        contains_text(pre + x + post, p),
{
    let s = pre + x + post;
    assert(s.subrange(i + pre.len(), i + pre.len() + p.len()) =~= x.subrange(i, i + p.len()));
}

/// Every item of a joined list is found in the joined text.
pub proof fn lemma_join_contains_items(items: Seq<Seq<char>>, sep: Seq<char>)
    ensures
        forall|k: int| 0 <= k < items.len() ==> contains_text(join_with(items, sep), #[trigger] items[k]),
    decreases items.len(),
{
    if items.len() == 1 {
        assert(occurs_in_at(items[0], items[0], 0)) by {
            assert(items[0].subrange(0, items[0].len() as int) =~= items[0]);
        }
    } else if items.len() > 1 {
        let front = items.drop_last();
        let j = join_with(front, sep);
        let last = items.last();
        lemma_join_contains_items(front, sep);
        assert forall|k: int| 0 <= k < items.len() implies contains_text(join_with(items, sep), #[trigger] items[k]) by {
            if k < items.len() - 1 {
                assert(items[k] == front[k]);
                assert(contains_text(j, front[k]));
                let i = choose|i: int| occurs_in_at(j, front[k], i);
                lemma_occurs_in_context(Seq::empty(), j, sep + last, items[k], i);
                assert(Seq::<char>::empty() + j + (sep + last) =~= join_with(items, sep));
            } else {
                assert(occurs_in_at(last, last, 0)) by {
                    assert(last.subrange(0, last.len() as int) =~= last);
                }
                lemma_occurs_in_context(j + sep, last, Seq::empty(), last, 0);
                assert(j + sep + last + Seq::<char>::empty() =~= join_with(items, sep));
            }
        }
    }
}

} // verus!
