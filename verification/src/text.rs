//! Text helpers shared by the lexer, the printers and the editor logic:
//! conversions between strings and character vectors and decimal rendering
//! of integers.
use vstd::prelude::*;

verus! {

/// The characters of a string slice, in order.
pub fn chars_of(s: &str) -> (r: Vec<char>)
    ensures
        r@ == s@,
{
    let mut r: Vec<char> = Vec::new();
    for c in it: s.chars()
        invariant
            r@ == it.seq().take(it.index() as int),
            it.seq() == s@,
    {
        r.push(c);
    }
    r
}

/// Whether two character slices are equal.
pub fn same_chars(w: &[char], kw: &[char]) -> (b: bool)
    ensures
        b == (w@ == kw@),
{
    if w.len() != kw.len() {
        return false;
    }
    let mut i: usize = 0;
    while i < w.len()
        invariant
            w.len() == kw.len(),
            i <= w.len(),
            forall|k: int| 0 <= k < i ==> w@[k] == kw@[k],
        decreases w.len() - i,
    {
        if w[i] != kw[i] {
            return false;
        }
        i = i + 1;
    }
    assert(w@ =~= kw@);
    true
}

/// Appends one character to a string (`String::push`): the string's
/// characters are afterwards the old ones followed by `c`.
#[verifier::external_body]
pub(crate) fn push_char(s: &mut String, c: char)
    ensures
        final(s)@ == old(s)@.push(c),
{
    s.push(c);
}

/// Builds a `String` holding exactly the given characters.
pub fn string_from_chars(v: &[char]) -> (s: String)
    ensures
        s@ == v@,
{
    let mut s = String::new();
    let mut i: usize = 0;
    while i < v.len()
        invariant
            i <= v.len(),
            s@ == v@.take(i as int),
        decreases v.len() - i,
    {
        push_char(&mut s, v[i]);
        i = i + 1;
    }
    s
}

} // verus!

verus! {

/// The decimal digit character for `d` (`d < 10`).
pub open spec fn digit_char(d: nat) -> char {
    ((d + 48) as u8) as char
}

/// The decimal representation of a natural number, most significant digit
/// first, without leading zeros (`0` is written as a single `0`).
pub open spec fn decimal(n: nat) -> Seq<char>
    decreases n,
{
    if n < 10 {
        seq![digit_char(n)]
    } else {
        decimal(n / 10).push(digit_char(n % 10))
    }
}

/// The decimal representation of a signed integer: a minus sign before the
/// digits of its magnitude when it is negative.
pub open spec fn signed_decimal(n: int) -> Seq<char> {
    if n < 0 {
        seq!['-'] + decimal((-n) as nat)
    } else {
        decimal(n as nat)
    }
}

/// Appends the decimal representation of `n` to `out`.
pub fn push_decimal(out: &mut Vec<char>, n: u64)
    ensures
        final(out)@ == old(out)@ + decimal(n as nat),
    decreases n,
{
    if n >= 10 {
        push_decimal(out, n / 10);
    }
    let d = (n % 10) as u8;
    out.push((d + 48) as char);
    proof {
        assert(decimal(n as nat) == if n < 10 { seq![digit_char(n as nat)] } else {
            decimal((n / 10) as nat).push(digit_char((n % 10) as nat))
        });
        if n < 10 {
            assert((n % 10) as nat == n as nat);
        }
    }
}

/// Appends the decimal representation of a signed integer to `out`.
pub fn push_signed_decimal(out: &mut Vec<char>, n: i64)
    ensures
        final(out)@ == old(out)@ + signed_decimal(n as int),
{
    if n < 0 {
        out.push('-');
        let m: u64 = if n == i64::MIN { 9223372036854775808u64 } else { (-n) as u64 };
        assert(m as int == -(n as int));
        let ghost before = out@;
        push_decimal(out, m);
        assert(out@ == old(out)@ + (seq!['-'] + decimal(m as nat)));
    } else {
        push_decimal(out, n as u64);
    }
}

/// Appends all characters of `s` to `out`.
pub fn push_str_chars(out: &mut Vec<char>, s: &str)
    ensures
        final(out)@ == old(out)@ + s@,
{
    let cs = chars_of(s);
    let mut i: usize = 0;
    while i < cs.len()
        invariant
            i <= cs.len(),
            cs@ == s@,
            out@ == old(out)@ + cs@.take(i as int),
        decreases cs.len() - i,
    {
        out.push(cs[i]);
        i = i + 1;
        assert(cs@.take(i as int) == cs@.take(i - 1).push(cs@[i - 1]));
    }
    assert(cs@.take(cs.len() as int) == cs@);
}

/// Appends all characters of `s` to `out`.
pub fn push_chars(out: &mut Vec<char>, s: &[char])
    ensures
        final(out)@ == old(out)@ + s@,
{
    let mut i: usize = 0;
    while i < s.len()
        invariant
            i <= s.len(),
            out@ == old(out)@ + s@.take(i as int),
        decreases s.len() - i,
    {
        out.push(s[i]);
        i = i + 1;
        assert(s@.take(i as int) == s@.take(i - 1).push(s@[i - 1]));
    }
    assert(s@.take(s.len() as int) == s@);
}

} // verus!

verus! {

/// What `str::to_lowercase` gives for a text: the lowercase mapping of the
/// Unicode character database, character by character (one character may
/// become several).
pub uninterp spec fn lowercase_of(s: Seq<char>) -> Seq<char>;

/// `str::to_lowercase`: claimed to give [`lowercase_of`] of the text; the
/// result depends on the text alone.
#[verifier::external_body]
pub(crate) fn to_lowercase(s: &str) -> (r: String)
    ensures
        r@ == lowercase_of(s@),
{
    s.to_lowercase()
}

/// Whether `needle` occurs in `hay` as a contiguous run (the empty text
/// occurs everywhere).
pub open spec fn contains_text(hay: Seq<char>, needle: Seq<char>) -> bool {
    exists|i: int| 0 <= i <= hay.len() - needle.len() && #[trigger] hay.subrange(i, i + needle.len()) == needle
}

/// Whether `needle` occurs in `hay` from index `i` on.
pub open spec fn occurs_at(hay: Seq<char>, needle: Seq<char>, i: int) -> bool {
    0 <= i && i + needle.len() <= hay.len() && forall|k: int| 0 <= k < needle.len() ==> hay[i + k] == #[trigger] needle[k]
}

fn occurs_at_exec(hay: &Vec<char>, needle: &Vec<char>, i: usize) -> (b: bool)
    requires
        i + needle@.len() <= hay@.len(),
    ensures
        b == occurs_at(hay@, needle@, i as int),
{
    let hl = hay.len();
    for k in 0..needle.len()
        invariant
            hl == hay@.len(),
            i + needle@.len() <= hay@.len(),
            forall|m: int| 0 <= m < k ==> hay@[i + m] == needle@[m],
    {
        if hay[i + k] != needle[k] {
            return false;
        }
    }
    true
}

/// Whether `needle` occurs in `hay`.
pub fn contains_chars(hay: &Vec<char>, needle: &Vec<char>) -> (b: bool)
    ensures
        b == contains_text(hay@, needle@),
{
    if needle.len() > hay.len() {
        return false;
    }
    let last = hay.len() - needle.len();
    let mut i: usize = 0;
    loop
        invariant
            i <= last,
            last == hay@.len() - needle@.len(),
            needle@.len() <= hay@.len(),
            forall|j: int| 0 <= j < i ==> !occurs_at(hay@, needle@, j),
        ensures
            forall|j: int| 0 <= j <= last ==> !occurs_at(hay@, needle@, j),
        decreases last - i,
    {
        if occurs_at_exec(hay, needle, i) {
            assert(hay@.subrange(i as int, i + needle@.len()) =~= needle@);
            return true;
        }
        if i == last {
            break;
        }
        i = i + 1;
    }
    assert forall|j: int| 0 <= j <= hay@.len() - needle@.len() implies #[trigger] hay@.subrange(j, j + needle@.len()) != needle@ by {
        if hay@.subrange(j, j + needle@.len()) == needle@ {
            assert forall|k: int| 0 <= k < needle@.len() implies hay@[j + k] == #[trigger] needle@[k] by {
                assert(hay@.subrange(j, j + needle@.len())[k] == hay@[j + k]);
            }
            assert(occurs_at(hay@, needle@, j));
        }
    }
    false
}

/// Whether `s` starts with `p`.
pub open spec fn starts_with(s: Seq<char>, p: Seq<char>) -> bool {
    p.len() <= s.len() && s.subrange(0, p.len() as int) == p
}

pub fn starts_with_chars(s: &Vec<char>, p: &[char]) -> (b: bool)
    ensures
        b == starts_with(s@, p@),
{
    if p.len() > s.len() {
        return false;
    }
    for k in 0..p.len()
        invariant
            p@.len() <= s@.len(),
            forall|m: int| 0 <= m < k ==> s@[m] == p@[m],
    {
        if s[k] != p[k] {
            assert(s@.subrange(0, p@.len() as int)[k as int] != p@[k as int]);
            return false;
        }
    }
    assert(s@.subrange(0, p@.len() as int) =~= p@);
    true
}

} // verus!

verus! {

/// The characters of the Unicode `White_Space` property, which
/// `char::is_whitespace` tests.
pub open spec fn is_whitespace(c: char) -> bool {
    ||| ('\t' <= c && c <= '\r')
    ||| c == ' '
    ||| c == '\u{85}'
    ||| c == '\u{a0}'
    ||| c == '\u{1680}'
    ||| ('\u{2000}' <= c && c <= '\u{200a}')
    ||| c == '\u{2028}'
    ||| c == '\u{2029}'
    ||| c == '\u{202f}'
    ||| c == '\u{205f}'
    ||| c == '\u{3000}'
}

pub fn is_whitespace_exec(c: char) -> (b: bool)
    ensures
        b == is_whitespace(c),
{
    ('\t' <= c && c <= '\r') || c == ' ' || c == '\u{85}' || c == '\u{a0}' || c == '\u{1680}' || ('\u{2000}' <= c
        && c <= '\u{200a}') || c == '\u{2028}' || c == '\u{2029}' || c == '\u{202f}' || c == '\u{205f}' || c
        == '\u{3000}'
}

/// The index of the first non-whitespace character from `i` on, or the
/// length.
pub open spec fn first_non_space(s: Seq<char>, i: int) -> int
    decreases s.len() - i,
{
    if i < 0 || i >= s.len() {
        s.len() as int
    } else if is_whitespace(s[i]) {
        first_non_space(s, i + 1)
    } else {
        i
    }
}

/// The index after the last non-whitespace character below `j`, or `lo`
/// when there is none at or above `lo`.
pub open spec fn end_non_space(s: Seq<char>, lo: int, j: int) -> int
    decreases j - lo,
{
    if j <= lo || j > s.len() {
        lo
    } else if is_whitespace(s[j - 1]) {
        end_non_space(s, lo, j - 1)
    } else {
        j
    }
}

/// A text without its leading and trailing whitespace, as `str::trim`
/// gives it.
pub open spec fn trim(s: Seq<char>) -> Seq<char> {
    let a = first_non_space(s, 0);
    s.subrange(a, end_non_space(s, a, s.len() as int))
}

proof fn lemma_first_non_space_bounds(s: Seq<char>, i: int)
    requires
        0 <= i <= s.len(),
    ensures
        i <= first_non_space(s, i) <= s.len(),
    decreases s.len() - i,
{
    if i < s.len() && is_whitespace(s[i]) {
        lemma_first_non_space_bounds(s, i + 1);
    }
}

proof fn lemma_end_non_space_bounds(s: Seq<char>, lo: int, j: int)
    requires
        0 <= lo <= j <= s.len(),
    ensures
        lo <= end_non_space(s, lo, j) <= j,
    decreases j - lo,
{
    if j > lo && is_whitespace(s[j - 1]) {
        lemma_end_non_space_bounds(s, lo, j - 1);
    }
}

proof fn lemma_first_non_space_stops(s: Seq<char>, i: int)
    requires
        0 <= i <= s.len(),
    ensures
        first_non_space(s, i) < s.len() ==> !is_whitespace(s[first_non_space(s, i)]),
    decreases s.len() - i,
{
    if i < s.len() && is_whitespace(s[i]) {
        lemma_first_non_space_stops(s, i + 1);
    }
}

proof fn lemma_end_non_space_stops(s: Seq<char>, lo: int, j: int)
    requires
        0 <= lo <= j <= s.len(),
    ensures
        end_non_space(s, lo, j) > lo ==> !is_whitespace(s[end_non_space(s, lo, j) - 1]),
    decreases j - lo,
{
    if j > lo && is_whitespace(s[j - 1]) {
        lemma_end_non_space_stops(s, lo, j - 1);
    }
}

/// A trimmed text is a run of the text, and, unless it is empty, starts
/// and ends with a character that is not whitespace.
pub proof fn lemma_trim_ends(s: Seq<char>)
    ensures
        exists|a: int| 0 <= a && a + trim(s).len() <= s.len() && #[trigger] s.subrange(a, a + trim(s).len()) == trim(s),
        trim(s).len() > 0 ==> !is_whitespace(trim(s)[0]) && !is_whitespace(trim(s).last()),
{
    let a = first_non_space(s, 0);
    lemma_first_non_space_bounds(s, 0);
    lemma_end_non_space_bounds(s, a, s.len() as int);
    lemma_first_non_space_stops(s, 0);
    lemma_end_non_space_stops(s, a, s.len() as int);
    let e = end_non_space(s, a, s.len() as int);
    assert(s.subrange(a, a + trim(s).len()) == trim(s));
}

/// A text that starts and ends with a character that is not whitespace is
/// its own trimmed text.
pub proof fn lemma_trim_fixed(t: Seq<char>)
    requires
        t.len() > 0,
        !is_whitespace(t[0]),
        !is_whitespace(t.last()),
    ensures
        trim(t) == t,
{
    assert(first_non_space(t, 0) == 0);
    assert(end_non_space(t, 0, t.len() as int) == t.len());
    assert(t.subrange(0, t.len() as int) =~= t);
}

/// Such a text indented by four spaces trims back to itself.
pub proof fn lemma_trim_indented(t: Seq<char>)
    requires
        t.len() > 0,
        !is_whitespace(t[0]),
        !is_whitespace(t.last()),
    ensures
        trim("    "@ + t) == t,
{
    reveal_strlit("    ");
    let x = "    "@ + t;
    assert(x[4] == t[0]);
    assert(first_non_space(x, 4) == 4);
    assert(first_non_space(x, 3) == 4);
    assert(first_non_space(x, 2) == 4);
    assert(first_non_space(x, 1) == 4);
    assert(first_non_space(x, 0) == 4);
    assert(x[x.len() - 1] == t.last());
    assert(end_non_space(x, 4, x.len() as int) == x.len());
    assert(x.subrange(4, x.len() as int) =~= t);
}

/// The text without its leading and trailing whitespace.
pub fn trim_chars(s: &Vec<char>) -> (r: Vec<char>)
    ensures
        r@ == trim(s@),
{
    let mut a: usize = 0;
    while a < s.len() && is_whitespace_exec(s[a])
        invariant
            a <= s.len(),
            first_non_space(s@, 0) == first_non_space(s@, a as int),
        decreases s.len() - a,
    {
        a = a + 1;
    }
    let mut b: usize = s.len();
    while b > a && is_whitespace_exec(s[b - 1])
        invariant
            a <= b <= s.len(),
            end_non_space(s@, a as int, s.len() as int) == end_non_space(s@, a as int, b as int),
        decreases b - a,
    {
        b = b - 1;
    }
    let mut r: Vec<char> = Vec::new();
    for k in a..b
        invariant
            a <= b <= s@.len(),
            r@ == s@.subrange(a as int, k as int),
    {
        r.push(s[k]);
        assert(r@ =~= s@.subrange(a as int, k + 1));
    }
    r
}

/// The pieces of a text between its `\n` characters (a text without one
/// is one piece).
pub open spec fn split_lines(s: Seq<char>) -> Seq<Seq<char>>
    decreases s.len(),
{
    if s.len() == 0 {
        seq![Seq::empty()]
    } else {
        let p = split_lines(s.drop_last());
        if s.last() == '\n' {
            p.push(Seq::empty())
        } else {
            p.update(p.len() - 1, p.last().push(s.last()))
        }
    }
}

pub proof fn lemma_split_lines_nonempty(s: Seq<char>)
    ensures
        split_lines(s).len() >= 1,
    decreases s.len(),
{
    if s.len() > 0 {
        lemma_split_lines_nonempty(s.drop_last());
    }
}

/// Whether a text holds no `\n`.
pub open spec fn no_newline(s: Seq<char>) -> bool {
    forall|i: int| 0 <= i < s.len() ==> s[i] != '\n'
}

/// A text without `\n` is one line.
pub proof fn lemma_split_lines_single(s: Seq<char>)
    requires
        no_newline(s),
    ensures
        split_lines(s) == seq![s],
    decreases s.len(),
{
    if s.len() > 0 {
        let d = s.drop_last();
        lemma_split_lines_single(d);
        assert(s[s.len() - 1] != '\n');
        assert(d.push(s.last()) =~= s);
        assert(split_lines(s) =~= seq![s]);
    } else {
        assert(s =~= Seq::<char>::empty());
    }
}

/// The lines of two texts joined by `\n` are the lines of each.
pub proof fn lemma_split_lines_join(a: Seq<char>, b: Seq<char>)
    ensures
        split_lines(a + seq!['\n'] + b) == split_lines(a) + split_lines(b),
    decreases b.len(),
{
    let s = a + seq!['\n'] + b;
    if b.len() == 0 {
        assert(s.drop_last() =~= a);
        assert(s.last() == '\n');
        assert(split_lines(b) =~= seq![Seq::<char>::empty()]);
        assert(split_lines(s) =~= split_lines(a) + split_lines(b));
    } else {
        let b2 = b.drop_last();
        lemma_split_lines_join(a, b2);
        assert(s.drop_last() =~= a + seq!['\n'] + b2);
        assert(s.last() == b.last());
        lemma_split_lines_nonempty(b2);
        let pa = split_lines(a);
        let pb = split_lines(b2);
        if b.last() == '\n' {
            assert(split_lines(s) =~= pa + split_lines(b));
        } else {
            let pp = pa + pb;
            assert(pp.last() == pb.last());
            assert(split_lines(s) =~= pa + split_lines(b));
        }
    }
}

/// No line of a text holds `\n`.
pub proof fn lemma_split_lines_no_newline(s: Seq<char>)
    ensures
        forall|i: int| 0 <= i < split_lines(s).len() ==> no_newline(#[trigger] split_lines(s)[i]),
    decreases s.len(),
{
    if s.len() > 0 {
        let d = s.drop_last();
        lemma_split_lines_no_newline(d);
        lemma_split_lines_nonempty(d);
        let p = split_lines(d);
        if s.last() != '\n' {
            let l = p.last().push(s.last());
            assert(no_newline(p[p.len() - 1]));
            assert(no_newline(l));
            assert forall|i: int| 0 <= i < split_lines(s).len() implies no_newline(#[trigger] split_lines(s)[i]) by {
                if i < p.len() - 1 {
                    assert(split_lines(s)[i] == p[i]);
                }
            }
        } else {
            assert forall|i: int| 0 <= i < split_lines(s).len() implies no_newline(#[trigger] split_lines(s)[i]) by {
                if i < p.len() {
                    assert(split_lines(s)[i] == p[i]);
                }
            }
        }
    } else {
        assert forall|i: int| 0 <= i < split_lines(s).len() implies no_newline(#[trigger] split_lines(s)[i]) by {
            assert(split_lines(s)[i] == Seq::<char>::empty());
        }
    }
}

/// The lines of a text, split at its `\n` characters.
pub fn split_lines_chars(s: &Vec<char>) -> (r: Vec<Vec<char>>)
    ensures
        r@.len() == split_lines(s@).len(),
        forall|i: int| 0 <= i < r@.len() ==> (#[trigger] r@[i])@ == split_lines(s@)[i],
{
    let mut done: Vec<Vec<char>> = Vec::new();
    let mut cur: Vec<char> = Vec::new();
    for k in 0..s.len()
        invariant
            done@.len() + 1 == split_lines(s@.take(k as int)).len(),
            forall|i: int| 0 <= i < done@.len() ==> (#[trigger] done@[i])@ == split_lines(s@.take(k as int))[i],
            cur@ == split_lines(s@.take(k as int)).last(),
    {
        proof {
            assert(s@.take(k + 1).drop_last() =~= s@.take(k as int));
            lemma_split_lines_nonempty(s@.take(k as int));
        }
        if s[k] == '\n' {
            done.push(cur);
            cur = Vec::new();
            proof {
                assert(cur@ =~= Seq::<char>::empty());
            }
        } else {
            cur.push(s[k]);
        }
    }
    done.push(cur);
    assert(s@.take(s@.len() as int) =~= s@);
    done
}

} // verus!
