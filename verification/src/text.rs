//! Text helpers shared by the rest of the library, each with the meaning of
//! the standard operation it stands for.

use vstd::prelude::*;

verus! {

pub assume_specification[ String::push ](s: &mut String, ch: char)
    ensures
        final(s)@ == old(s)@.push(ch),
;

/// The characters for which `char::is_whitespace` holds (Unicode `White_Space`).
pub open spec fn is_white_space(c: char) -> bool {
    ||| c == ' '
    ||| ('\t' <= c && c <= '\r')
    ||| c == '\u{85}'
    ||| c == '\u{a0}'
    ||| c == '\u{1680}'
    ||| ('\u{2000}' <= c && c <= '\u{200a}')
    ||| c == '\u{2028}'
    ||| c == '\u{2029}'
    ||| c == '\u{202f}'
    ||| c == '\u{205f}'
    ||| c == '\u{3000}'
}

pub fn is_white_space_char(c: char) -> (r: bool)
    ensures
        r == is_white_space(c),
{
    c == ' ' || ('\t' <= c && c <= '\r') || c == '\u{85}' || c == '\u{a0}' || c == '\u{1680}'
        || ('\u{2000}' <= c && c <= '\u{200a}') || c == '\u{2028}' || c == '\u{2029}'
        || c == '\u{202f}' || c == '\u{205f}' || c == '\u{3000}'
}

/// The characters of `s`, in order.
pub fn chars_of(s: &str) -> (r: Vec<char>)
    ensures
        r@ == s@,
{
    let mut r: Vec<char> = Vec::new();
    for c in it: s.chars()
        invariant
            it.seq() == s@,
            r@ == s@.take(it.index()),
    {
        r.push(c);
    }
    r
}

/// `out` with the characters `cs[lo..hi]` appended.
pub fn push_range(out: &mut String, cs: &Vec<char>, lo: usize, hi: usize)
    requires
        lo <= hi <= cs@.len(),
    ensures
        final(out)@ == old(out)@ + cs@.subrange(lo as int, hi as int),
{
    let ghost start = out@;
    let mut i = lo;
    while i < hi
        invariant
            lo <= i <= hi <= cs@.len(),
            out@ == start + cs@.subrange(lo as int, i as int),
        decreases hi - i,
    {
        out.push(cs[i]);
        i = i + 1;
        assert(cs@.subrange(lo as int, i as int) =~= cs@.subrange(lo as int, i - 1).push(cs@[i - 1]));
    }
}

/// A new string holding the characters `cs[lo..hi]`.
pub fn string_of(cs: &Vec<char>, lo: usize, hi: usize) -> (r: String)
    requires
        lo <= hi <= cs@.len(),
    ensures
        r@ == cs@.subrange(lo as int, hi as int),
{
    let mut r = String::new();
    push_range(&mut r, cs, lo, hi);
    r
}

/// A class of characters that a trim removes.
#[derive(Clone, Copy, PartialEq, Eq, Debug)]
pub enum CharClass {
    /// Unicode white space, as `str::trim` removes it.
    WhiteSpace,
    /// The quote characters `"` and `'`.
    Quote,
    /// One given character.
    Is(char),
}

pub open spec fn in_class(k: CharClass, c: char) -> bool {
    match k {
        CharClass::WhiteSpace => is_white_space(c),
        CharClass::Quote => c == '"' || c == '\'',
        CharClass::Is(x) => c == x,
    }
}

pub fn is_in_class(k: CharClass, c: char) -> (r: bool)
    ensures
        r == in_class(k, c),
{
    match k {
        CharClass::WhiteSpace => is_white_space_char(c),
        CharClass::Quote => c == '"' || c == '\'',
        CharClass::Is(x) => c == x,
    }
}

/// `s` without its leading characters of class `k`.
pub open spec fn trim_start(s: Seq<char>, k: CharClass) -> Seq<char>
    decreases s.len(),
{
    if s.len() > 0 && in_class(k, s[0]) {
        trim_start(s.drop_first(), k)
    } else {
        s
    }
}

/// `s` without its trailing characters of class `k`.
pub open spec fn trim_end(s: Seq<char>, k: CharClass) -> Seq<char>
    decreases s.len(),
{
    if s.len() > 0 && in_class(k, s.last()) {
        trim_end(s.drop_last(), k)
    } else {
        s
    }
}

/// `s` without leading and trailing characters of class `k`.
pub open spec fn trim_both(s: Seq<char>, k: CharClass) -> Seq<char> {
    trim_end(trim_start(s, k), k)
}

/// The first index in `lo..hi` whose character is not of class `k`, or `hi`.
pub fn skip_class_forward(cs: &Vec<char>, lo: usize, hi: usize, k: CharClass) -> (r: usize)
    requires
        lo <= hi <= cs@.len(),
    ensures
        lo <= r <= hi,
        cs@.subrange(r as int, hi as int) == trim_start(cs@.subrange(lo as int, hi as int), k),
{
    let mut i = lo;
    while i < hi && is_in_class(k, cs[i])
        invariant
            lo <= i <= hi <= cs@.len(),
            trim_start(cs@.subrange(i as int, hi as int), k) == trim_start(cs@.subrange(lo as int, hi as int), k),
        decreases hi - i,
    {
        assert(cs@.subrange(i as int, hi as int).drop_first() =~= cs@.subrange(i + 1, hi as int));
        i = i + 1;
    }
    i
}

/// The last end in `lo..=hi` such that `cs[lo..end]` ends in no character of class `k`.
pub fn skip_class_backward(cs: &Vec<char>, lo: usize, hi: usize, k: CharClass) -> (r: usize)
    requires
        lo <= hi <= cs@.len(),
    ensures
        lo <= r <= hi,
        cs@.subrange(lo as int, r as int) == trim_end(cs@.subrange(lo as int, hi as int), k),
{
    let mut j = hi;
    while j > lo && is_in_class(k, cs[j - 1])
        invariant
            lo <= j <= hi <= cs@.len(),
            trim_end(cs@.subrange(lo as int, j as int), k) == trim_end(cs@.subrange(lo as int, hi as int), k),
        decreases j - lo,
    {
        assert(cs@.subrange(lo as int, j as int).drop_last() =~= cs@.subrange(lo as int, j - 1));
        j = j - 1;
    }
    j
}

/// `s` with leading and trailing Unicode white space removed, as `str::trim` does.
pub fn trim(s: &str) -> (r: String)
    ensures
        r@ == trim_both(s@, CharClass::WhiteSpace),
{
    let cs = chars_of(s);
    let start = skip_class_forward(&cs, 0, cs.len(), CharClass::WhiteSpace);
    let end = skip_class_backward(&cs, start, cs.len(), CharClass::WhiteSpace);
    proof {
        assert(cs@.subrange(0, cs@.len() as int) =~= cs@);
    }
    string_of(&cs, start, end)
}

/// The decimal digit character for `d`.
pub open spec fn digit_char(d: nat) -> char {
    (48 + d) as char
}

/// The decimal numeral of `n`, without sign or leading zeros.
pub open spec fn decimal(n: nat) -> Seq<char>
    decreases n,
{
    if n < 10 {
        seq![digit_char(n)]
    } else {
        decimal(n / 10).push(digit_char(n % 10))
    }
}

fn digit(d: u64) -> (c: char)
    requires
        d < 10,
    ensures
        c == digit_char(d as nat),
{
    match d {
        0 => '0',
        1 => '1',
        2 => '2',
        3 => '3',
        4 => '4',
        5 => '5',
        6 => '6',
        7 => '7',
        8 => '8',
        _ => '9',
    }
}

/// `out` with the decimal numeral of `n` appended, as `format!("{n}")` writes it.
pub fn push_decimal(out: &mut String, n: u64)
    ensures
        final(out)@ == old(out)@ + decimal(n as nat),
    decreases n,
{
    if n >= 10 {
        push_decimal(out, n / 10);
    }
    out.push(digit(n % 10));
    proof {
        if n < 10 {
            assert(old(out)@ + decimal(n as nat) =~= old(out)@.push(digit_char(n as nat)));
        }
    }
}

/// The strings of `parts`, with `sep` between each two neighbours.
pub open spec fn joined(parts: Seq<Seq<char>>, sep: Seq<char>) -> Seq<char>
    decreases parts.len(),
{
    if parts.len() == 0 {
        Seq::empty()
    } else if parts.len() == 1 {
        parts[0]
    } else {
        joined(parts.drop_last(), sep) + sep + parts.last()
    }
}

/// The views of a vector of strings.
pub open spec fn views(v: Seq<String>) -> Seq<Seq<char>> {
    v.map_values(|s: String| s@)
}

/// `out` with the strings of `parts` appended, `sep` between neighbours, as
/// `parts.join(sep)` writes them.
pub fn push_joined(out: &mut String, parts: &Vec<String>, sep: &str)
    ensures
        final(out)@ == old(out)@ + joined(views(parts@), sep@),
{
    let ghost start = out@;
    let mut i: usize = 0;
    while i < parts.len()
        invariant
            i <= parts@.len(),
            out@ == start + joined(views(parts@.take(i as int)), sep@),
        decreases parts@.len() - i,
    {
        let ghost before = out@;
        if i > 0 {
            out.append(sep);
        }
        out.append(parts[i].as_str());
        proof {
            let p = views(parts@.take(i + 1));
            assert(p.drop_last() =~= views(parts@.take(i as int)));
            assert(p.last() == parts@[i as int]@);
            if i == 0 {
                assert(views(parts@.take(0)) =~= Seq::<Seq<char>>::empty());
                assert(joined(views(parts@.take(0)), sep@) =~= Seq::<char>::empty());
                assert(out@ =~= start + p[0]);
            } else {
                assert(out@ =~= start + joined(p.drop_last(), sep@) + sep@ + p.last());
            }
        }
        i = i + 1;
    }
    proof {
        assert(parts@.take(parts@.len() as int) =~= parts@);
    }
}

// ---------------------------------------------------------------------------
// Sequences of characters

/// `pat` occurs in `s` at position `i`.
pub open spec fn occurs_at(s: Seq<char>, pat: Seq<char>, i: int) -> bool {
    0 <= i && i + pat.len() <= s.len() && s.subrange(i, i + pat.len()) == pat
}

/// The first position at or after `i` where `pat` occurs in `s`.
pub open spec fn first_match_from(s: Seq<char>, pat: Seq<char>, i: int) -> Option<int>
    decreases s.len() - i,
{
    if i < 0 || i + pat.len() > s.len() {
        None
    } else if occurs_at(s, pat, i) {
        Some(i)
    } else if i >= s.len() {
        None
    } else {
        first_match_from(s, pat, i + 1)
    }
}

/// The first position where `pat` occurs in `s`, as `str::find` reports it.
pub open spec fn find(s: Seq<char>, pat: Seq<char>) -> Option<int> {
    first_match_from(s, pat, 0)
}

pub open spec fn is_ascii_digit(c: char) -> bool {
    '0' <= c && c <= '9'
}

pub open spec fn is_ascii_alphabetic(c: char) -> bool {
    ('a' <= c && c <= 'z') || ('A' <= c && c <= 'Z')
}

/// The longest prefix of `s` made of ASCII digits.
pub open spec fn leading_digits(s: Seq<char>) -> Seq<char>
    decreases s.len(),
{
    if s.len() > 0 && is_ascii_digit(s[0]) {
        seq![s[0]] + leading_digits(s.drop_first())
    } else {
        Seq::empty()
    }
}

pub open spec fn starts_with(s: Seq<char>, p: Seq<char>) -> bool {
    p.len() <= s.len() && s.take(p.len() as int) == p
}

pub open spec fn ends_with(s: Seq<char>, p: Seq<char>) -> bool {
    p.len() <= s.len() && s.skip(s.len() - p.len()) == p
}

pub proof fn lemma_leading_digits(s: Seq<char>, j: int)
    requires
        0 <= j <= s.len(),
        forall|i: int| 0 <= i < j ==> is_ascii_digit(#[trigger] s[i]),
        j == s.len() || !is_ascii_digit(s[j]),
    ensures
        leading_digits(s) == s.take(j),
    decreases j,
{
    if j == 0 {
        assert(s.take(0) =~= Seq::<char>::empty());
    } else {
        let t = s.drop_first();
        assert forall|i: int| 0 <= i < j - 1 implies is_ascii_digit(#[trigger] t[i]) by {
            assert(t[i] == s[i + 1]);
        }
        lemma_leading_digits(t, j - 1);
        assert(seq![s[0]] + t.take(j - 1) =~= s.take(j));
    }
}

/// The end of the run of ASCII digits that starts at `lo`.
pub fn digit_run_end(cs: &Vec<char>, lo: usize) -> (j: usize)
    requires
        lo <= cs@.len(),
    ensures
        lo <= j <= cs@.len(),
        leading_digits(cs@.skip(lo as int)) == cs@.subrange(lo as int, j as int),
{
    let mut j = lo;
    while j < cs.len() && '0' <= cs[j] && cs[j] <= '9'
        invariant
            lo <= j <= cs@.len(),
            forall|i: int| lo <= i < j ==> is_ascii_digit(#[trigger] cs@[i]),
        decreases cs@.len() - j,
    {
        j = j + 1;
    }
    proof {
        let t = cs@.skip(lo as int);
        assert forall|i: int| 0 <= i < j - lo implies is_ascii_digit(#[trigger] t[i]) by {
            assert(t[i] == cs@[lo + i]);
        }
        lemma_leading_digits(t, j - lo);
        assert(t.take(j - lo) =~= cs@.subrange(lo as int, j as int));
    }
    j
}

/// Whether `pat` occurs in `cs` at position `i`.
pub fn matches_at(cs: &Vec<char>, pat: &Vec<char>, i: usize) -> (r: bool)
    ensures
        r == occurs_at(cs@, pat@, i as int),
{
    if i > cs.len() || pat.len() > cs.len() - i {
        return false;
    }
    let mut k: usize = 0;
    while k < pat.len()
        invariant
            i + pat@.len() <= cs@.len(),
            cs@.len() == cs.len(),
            k <= pat@.len(),
            forall|m: int| 0 <= m < k ==> cs@[i + m] == pat@[m],
        decreases pat@.len() - k,
    {
        if cs[i + k] != pat[k] {
            proof {
                assert(cs@.subrange(i as int, i + pat@.len())[k as int] != pat@[k as int]);
            }
            return false;
        }
        k = k + 1;
    }
    proof {
        assert(cs@.subrange(i as int, i + pat@.len()) =~= pat@);
    }
    true
}

/// The first position where `pat` occurs in `cs`, if any.
pub fn find_in(cs: &Vec<char>, pat: &Vec<char>) -> (r: Option<usize>)
    requires
        pat@.len() > 0,
    ensures
        r matches Some(i) ==> find(cs@, pat@) == Some(i as int) && i + pat@.len() <= cs@.len(),
        r is None ==> find(cs@, pat@) is None,
{
    let mut i: usize = 0;
    while pat.len() <= cs.len() - i
        invariant
            pat@.len() > 0,
            i <= cs@.len(),
            first_match_from(cs@, pat@, 0) == first_match_from(cs@, pat@, i as int),
        decreases cs@.len() + 1 - i,
    {
        if matches_at(cs, pat, i) {
            return Some(i);
        }
        i = i + 1;
    }
    None
}


/// The characters of `cs` from `from` on.
pub fn suffix(cs: &Vec<char>, from: usize) -> (r: Vec<char>)
    requires
        from <= cs@.len(),
    ensures
        r@ == cs@.skip(from as int),
{
    let mut r: Vec<char> = Vec::new();
    let mut i = from;
    while i < cs.len()
        invariant
            from <= i <= cs@.len(),
            r@ == cs@.subrange(from as int, i as int),
        decreases cs@.len() - i,
    {
        r.push(cs[i]);
        i = i + 1;
        assert(r@ =~= cs@.subrange(from as int, i as int));
    }
    assert(r@ =~= cs@.skip(from as int));
    r
}

/// Whether `cs` ends with the characters of `suf`.
pub fn ends_with_chars(cs: &Vec<char>, suf: &Vec<char>) -> (r: bool)
    ensures
        r == ends_with(cs@, suf@),
{
    if suf.len() > cs.len() {
        return false;
    }
    let at = cs.len() - suf.len();
    proof {
        assert(cs@.subrange(at as int, at + suf@.len()) =~= cs@.skip(at as int));
    }
    matches_at(cs, suf, at)
}

/// An environment value with blanks trimmed, or nothing when it is missing or
/// blank.
pub open spec fn non_empty(raw: Option<Seq<char>>) -> Option<Seq<char>> {
    match raw {
        Some(v) => {
            let t = trim_both(v, CharClass::WhiteSpace);
            if t.len() == 0 {
                None
            } else {
                Some(t)
            }
        },
        None => None,
    }
}

pub open spec fn opt_view(v: Option<String>) -> Option<Seq<char>> {
    match v {
        Some(s) => Some(s@),
        None => None,
    }
}

/// Read an environment value, treating blank values as unset.
pub fn non_empty_value(raw: Option<String>) -> (r: Option<String>)
    ensures
        opt_view(r) == non_empty(opt_view(raw)),
{
    match raw {
        None => None,
        Some(v) => {
            let t = trim(v.as_str());
            if t.unicode_len() == 0 {
                None
            } else {
                Some(t)
            }
        },
    }
}

/// Whether two character vectors are equal.
pub fn same_chars(a: &Vec<char>, b: &Vec<char>) -> (r: bool)
    ensures
        r == (a@ == b@),
{
    if a.len() != b.len() {
        return false;
    }
    let mut i: usize = 0;
    while i < a.len()
        invariant
            a@.len() == b@.len(),
            i <= a@.len(),
            forall|k: int| 0 <= k < i ==> a@[k] == b@[k],
        decreases a@.len() - i,
    {
        if a[i] != b[i] {
            return false;
        }
        i = i + 1;
    }
    assert(a@ =~= b@);
    true
}

/// Whether two strings hold the same characters.
pub fn same_text(a: &str, b: &str) -> (r: bool)
    ensures
        r == (a@ == b@),
{
    same_chars(&chars_of(a), &chars_of(b))
}

/// `s` with every leading repetition of `p` removed, as
/// `str::trim_start_matches` does with a string pattern.
pub open spec fn strip_prefix_repeated(s: Seq<char>, p: Seq<char>) -> Seq<char>
    decreases s.len(),
{
    if p.len() > 0 && starts_with(s, p) {
        strip_prefix_repeated(s.skip(p.len() as int), p)
    } else {
        s
    }
}

/// `s` with every leading repetition of the non-empty `p` removed.
pub fn trim_start_matches(s: &str, p: &str) -> (r: String)
    ensures
        r@ == strip_prefix_repeated(s@, p@),
{
    let cs = chars_of(s);
    let pat = chars_of(p);
    let n = cs.len();
    if pat.len() == 0 {
        assert(cs@.subrange(0, n as int) =~= cs@);
        return string_of(&cs, 0, n);
    }
    let mut i: usize = 0;
    assert(cs@.skip(0) =~= cs@);
    while matches_at(&cs, &pat, i)
        invariant
            pat@.len() > 0,
            i <= n == cs@.len(),
            strip_prefix_repeated(cs@, pat@) == strip_prefix_repeated(cs@.skip(i as int), pat@),
        decreases n - i,
    {
        proof {
            let t = cs@.skip(i as int);
            assert(t.subrange(0, pat@.len() as int) =~= cs@.subrange(i as int, i + pat@.len()));
            assert(t.take(pat@.len() as int) =~= t.subrange(0, pat@.len() as int));
            assert(t.skip(pat@.len() as int) =~= cs@.skip(i + pat@.len()));
        }
        i = i + pat.len();
    }
    proof {
        let t = cs@.skip(i as int);
        if starts_with(t, pat@) {
            assert(t.take(pat@.len() as int) =~= cs@.subrange(i as int, i + pat@.len()));
        }
        assert(cs@.subrange(i as int, n as int) =~= t);
    }
    string_of(&cs, i, n)
}

/// The lines of a text as `str::lines` yields them: split after each `\n`,
/// a `\r` just before that `\n` dropped, and no empty line after a final `\n`.
pub open spec fn split_lines(s: Seq<char>, cur: Seq<char>) -> Seq<Seq<char>>
    decreases s.len(),
{
    if s.len() == 0 {
        if cur.len() == 0 {
            Seq::empty()
        } else {
            seq![cur]
        }
    } else if s[0] == '\n' {
        seq![without_cr(cur)] + split_lines(s.drop_first(), Seq::empty())
    } else {
        split_lines(s.drop_first(), cur.push(s[0]))
    }
}

/// `line` without one trailing `\r`.
pub open spec fn without_cr(line: Seq<char>) -> Seq<char> {
    if line.len() > 0 && line.last() == '\r' {
        line.drop_last()
    } else {
        line
    }
}

/// The lines of `s`, as `str::lines` yields them.
pub open spec fn lines_of(s: Seq<char>) -> Seq<Seq<char>> {
    split_lines(s, Seq::empty())
}

/// The lines of `text`, as `str::lines` yields them.
pub fn lines(text: &str) -> (r: Vec<Vec<char>>)
    ensures
        r@.map_values(|l: Vec<char>| l@) == lines_of(text@),
{
    let cs = chars_of(text);
    let n = cs.len();
    let mut out: Vec<Vec<char>> = Vec::new();
    let mut start: usize = 0;
    let mut i: usize = 0;
    assert(cs@.skip(0) =~= cs@);
    assert(cs@.subrange(0, 0) =~= Seq::<char>::empty());
    while i < n
        invariant
            start <= i <= n == cs@.len(),
            lines_of(cs@) == out@.map_values(|l: Vec<char>| l@) + split_lines(
                cs@.skip(i as int),
                cs@.subrange(start as int, i as int),
            ),
        decreases n - i,
    {
        let ghost before = out@.map_values(|l: Vec<char>| l@);
        let ghost cur = cs@.subrange(start as int, i as int);
        assert(cs@.skip(i as int).drop_first() =~= cs@.skip(i + 1));
        assert(cs@.skip(i as int)[0] == cs@[i as int]);
        if cs[i] == '\n' {
            let mut end = i;
            if end > start && cs[end - 1] == '\r' {
                end = end - 1;
            }
            let mut line: Vec<char> = Vec::new();
            let mut k = start;
            while k < end
                invariant
                    start <= k <= end <= i < n == cs@.len(),
                    line@ == cs@.subrange(start as int, k as int),
                decreases end - k,
            {
                line.push(cs[k]);
                k = k + 1;
                assert(line@ =~= cs@.subrange(start as int, k as int));
            }
            proof {
                assert(line@ =~= without_cr(cur));
            }
            out.push(line);
            i = i + 1;
            start = i;
            proof {
                assert(out@.map_values(|l: Vec<char>| l@) =~= before.push(without_cr(cur)));
                assert(cs@.subrange(start as int, i as int) =~= Seq::<char>::empty());
                assert(before + split_lines(cs@.skip(i - 1), cur) =~= out@.map_values(|l: Vec<char>| l@) + split_lines(cs@.skip(i as int), Seq::empty()));
            }
        } else {
            i = i + 1;
            assert(cs@.subrange(start as int, i as int) =~= cur.push(cs@[i - 1]));
        }
    }
    let ghost before = out@.map_values(|l: Vec<char>| l@);
    let ghost cur = cs@.subrange(start as int, n as int);
    assert(cs@.skip(n as int) =~= Seq::<char>::empty());
    if start < n {
        let mut line: Vec<char> = Vec::new();
        let mut k = start;
        while k < n
            invariant
                start <= k <= n == cs@.len(),
                line@ == cs@.subrange(start as int, k as int),
            decreases n - k,
        {
            line.push(cs[k]);
            k = k + 1;
            assert(line@ =~= cs@.subrange(start as int, k as int));
        }
        out.push(line);
        assert(out@.map_values(|l: Vec<char>| l@) =~= before.push(cur));
    } else {
        assert(cur =~= Seq::<char>::empty());
        assert(before + Seq::<Seq<char>>::empty() =~= before);
    }
    out
}

/// Trimming white space leaves nothing exactly when there is nothing but
/// white space.
pub proof fn lemma_blank_trims_to_nothing(s: Seq<char>)
    ensures
        trim_both(s, CharClass::WhiteSpace).len() == 0 <==> forall|k: int| 0 <= k < s.len()
            ==> is_white_space(#[trigger] s[k]),
    decreases s.len(),
{
    lemma_trim_start_blank(s);
    let t = trim_start(s, CharClass::WhiteSpace);
    lemma_trim_end_empty(t);
}

proof fn lemma_trim_start_blank(s: Seq<char>)
    ensures
        trim_start(s, CharClass::WhiteSpace).len() == 0 <==> forall|k: int| 0 <= k < s.len()
            ==> is_white_space(#[trigger] s[k]),
        trim_start(s, CharClass::WhiteSpace).len() > 0 ==> !is_white_space(
            trim_start(s, CharClass::WhiteSpace)[0],
        ),
    decreases s.len(),
{
    if s.len() > 0 && is_white_space(s[0]) {
        lemma_trim_start_blank(s.drop_first());
        if trim_start(s, CharClass::WhiteSpace).len() == 0 {
            assert forall|k: int| 0 <= k < s.len() implies is_white_space(#[trigger] s[k]) by {
                if k > 0 {
                    assert(s[k] == s.drop_first()[k - 1]);
                }
            }
        } else {
            let k = choose|k: int| 0 <= k < s.drop_first().len() && !is_white_space(#[trigger] s.drop_first()[k]);
            assert(!is_white_space(s[k + 1]));
        }
    }
}

proof fn lemma_trim_end_empty(t: Seq<char>)
    requires
        t.len() > 0 ==> !is_white_space(t[0]),
    ensures
        trim_end(t, CharClass::WhiteSpace).len() == 0 <==> t.len() == 0,
    decreases t.len(),
{
    if t.len() > 0 && is_white_space(t.last()) {
        if t.len() > 1 {
            lemma_trim_end_empty(t.drop_last());
        }
    }
}

} // verus!
