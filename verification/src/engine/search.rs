//! The search over the open scripts: every place where a text occurs in a
//! line, with the text matched and up to ten bytes of context on each
//! side. Positions count bytes, as the editor's columns do.
use vstd::prelude::*;
use vstd::utf8::{encode_utf8, is_char_boundary};
use vstd::string::StringSliceAdditionalSpecFns;
use vstd::utf8::decode_utf8;
use crate::text::{lowercase_of, to_lowercase, push_str_chars, string_from_chars};
use crate::engine::scripting::SearchResult;

verus! {

broadcast use vstd::utf8::group_utf8_lib;

/// The bytes of `s[a..b]`, taken as a `String`.
fn byte_slice(s: &str, a: usize, b: usize) -> (r: String)
    requires
        a <= b <= s.spec_bytes().len(),
        is_char_boundary(s.spec_bytes(), a as int),
        is_char_boundary(s.spec_bytes(), b as int),
    ensures
        encode_utf8(r@) == s.spec_bytes().subrange(a as int, b as int),
{
    let ghost sb = s.spec_bytes();
    let (head, _) = s.split_at(b);
    proof {
        let hb = head.spec_bytes();
        assert(hb =~= sb.subrange(0, b as int));
        vstd::utf8::encode_utf8_valid_utf8(head@);
        vstd::utf8::encode_utf8_valid_utf8(s@);
        if a < b {
            assert(hb[a as int] == sb[a as int]);
            vstd::utf8::is_char_boundary_iff_not_is_continuation_byte(sb, a as int);
            vstd::utf8::is_char_boundary_iff_not_is_continuation_byte(hb, a as int);
        } else {
            vstd::utf8::is_char_boundary_start_end_of_seq(hb);
        }
    }
    let (_, mid) = head.split_at(a);
    assert(mid.spec_bytes() =~= sb.subrange(a as int, b as int));
    mid.to_owned()
}

/// The bytes a search runs over: those of the text, or those of its
/// lowercase form when the search ignores case.
pub open spec fn searched_bytes(s: Seq<char>, case_sensitive: bool) -> Seq<u8> {
    if case_sensitive {
        encode_utf8(s)
    } else {
        encode_utf8(lowercase_of(s))
    }
}

/// Whether `s` occurs in `t` at byte `i`.
pub open spec fn bytes_at(t: Seq<u8>, s: Seq<u8>, i: int) -> bool {
    0 <= i && i + s.len() <= t.len() && t.subrange(i, i + s.len()) == s
}

/// The byte positions from `i` on where `s` occurs in `t`, in order
/// (occurrences may overlap).
pub open spec fn match_positions(t: Seq<u8>, s: Seq<u8>, i: int) -> Seq<int>
    decreases t.len() + 1 - i,
{
    if i < 0 || i + s.len() > t.len() {
        Seq::empty()
    } else if bytes_at(t, s, i) {
        seq![i] + match_positions(t, s, i + 1)
    } else {
        match_positions(t, s, i + 1)
    }
}

/// Where the context before a match at `p` starts: ten bytes back, or the
/// start of the line.
pub open spec fn context_start(p: int) -> int {
    if p >= 10 {
        p - 10
    } else {
        0
    }
}

/// Where the context after a match at `p` of `n` searched bytes ends: ten
/// bytes past it, or the end of the line of `len` bytes.
pub open spec fn context_end(p: int, n: int, len: int) -> int {
    if p + n + 10 <= len {
        p + n + 10
    } else {
        len
    }
}

/// Whether a match at `p` can be cut out of the line: the next search
/// starts on a character of the searched bytes `t`, and the match, of the
/// length `n0` of the search as typed, and its context start and end on
/// characters of the line `l`, in order.
pub open spec fn match_fits(l: Seq<u8>, t: Seq<u8>, n: int, n0: int, p: int) -> bool {
    &&& p + n + 10 <= usize::MAX
    &&& is_char_boundary(t, p + 1)
    &&& p + n0 <= context_end(p, n, l.len() as int)
    &&& is_char_boundary(l, context_start(p))
    &&& is_char_boundary(l, p)
    &&& is_char_boundary(l, p + n0)
    &&& is_char_boundary(l, context_end(p, n, l.len() as int))
}

/// Whether searching `line` for `search` succeeds: the search is not empty,
/// and every match can be cut out of the line (see [`match_fits`]).
pub open spec fn search_fits(line: Seq<char>, search: Seq<char>, case_sensitive: bool) -> bool {
    let t = searched_bytes(line, case_sensitive);
    let s = searched_bytes(search, case_sensitive);
    let ps = match_positions(t, s, 0);
    &&& s.len() > 0
    &&& forall|k: int| 0 <= k < ps.len() ==> match_fits(encode_utf8(line), t, s.len() as int, encode_utf8(search).len() as int, #[trigger] ps[k])
}

/// Whether `r` reports the match at `p`: the script's name, the line's
/// number, the column `p + 1`, the bytes of the line from `p` as long as
/// the search as typed, and the context before and after.
pub open spec fn reports_match(r: SearchResult, p: int, line: Seq<char>, line_num: usize, script_name: Seq<char>, search: Seq<char>, case_sensitive: bool) -> bool {
    let l = encode_utf8(line);
    let n = searched_bytes(search, case_sensitive).len() as int;
    let n0 = encode_utf8(search).len() as int;
    &&& r.script_name@ == script_name
    &&& r.line == line_num
    &&& r.column == p + 1
    &&& encode_utf8(r.match_text@) == l.subrange(p, p + n0)
    &&& encode_utf8(r.context_before@) == l.subrange(context_start(p), p)
    &&& encode_utf8(r.context_after@) == l.subrange(p + n0, context_end(p, n, l.len() as int))
}

/// Whether `v` reports, in order, every match of the search in the line.
pub open spec fn reports_matches(v: Seq<SearchResult>, line: Seq<char>, line_num: usize, script_name: Seq<char>, search: Seq<char>, case_sensitive: bool) -> bool {
    let ps = match_positions(searched_bytes(line, case_sensitive), searched_bytes(search, case_sensitive), 0);
    &&& v.len() == ps.len()
    &&& forall|k: int| 0 <= k < v.len() ==> reports_match(#[trigger] v[k], ps[k], line, line_num, script_name, search, case_sensitive)
}

/// Whether `s` occurs in `t` at `i`.
fn bytes_equal_at(t: &[u8], s: &[u8], i: usize) -> (b: bool)
    requires
        i + s@.len() <= t@.len(),
    ensures
        b == bytes_at(t@, s@, i as int),
{
    let n = s.len();
    let tl = t.len();
    for k in 0..n
        invariant
            n == s@.len(),
            tl == t@.len(),
            i + n <= t@.len(),
            forall|m: int| 0 <= m < k ==> t@[i + m] == s@[m],
    {
        if t[i + k] != s[k] {
            assert(t@.subrange(i as int, i + n)[k as int] != s@[k as int]);
            return false;
        }
    }
    assert(t@.subrange(i as int, i + n) =~= s@);
    true
}

/// The bytes of a text.
proof fn lemma_str_bytes(s: &str)
    ensures
        s.spec_bytes() == encode_utf8(s@),
{
}

/// The matches of `search` in `line`, or nothing where a match cannot be
/// cut out of the line.
fn try_find_text_matches(line: &str, line_num: usize, script_name: &str, search: &str, case_sensitive: bool) -> (r: Option<Vec<SearchResult>>)
    ensures
        r is Some <==> search_fits(line@, search@, case_sensitive),
        r matches Some(v) ==> reports_matches(v@, line@, line_num, script_name@, search@, case_sensitive),
{
    let t_string = if case_sensitive {
        line.to_owned()
    } else {
        to_lowercase(line)
    };
    let s_string = if case_sensitive {
        search.to_owned()
    } else {
        to_lowercase(search)
    };
    let t_str = t_string.as_str();
    let s_str = s_string.as_str();
    let t = t_str.as_bytes();
    let s = s_str.as_bytes();
    let ghost tb = searched_bytes(line@, case_sensitive);
    let ghost sb = searched_bytes(search@, case_sensitive);
    let ghost lb = encode_utf8(line@);
    let ghost ps = match_positions(tb, sb, 0);
    assert(t@ == tb);
    assert(s@ == sb);
    assert(t_str.spec_bytes() == tb);
    assert(line.spec_bytes() == lb);
    assert(search.spec_bytes() == encode_utf8(search@));
    let n = s.len();
    let n0 = search.as_bytes().len();
    let len = line.as_bytes().len();
    if n == 0 {
        return None;
    }
    let mut out: Vec<SearchResult> = Vec::new();
    if n > t.len() {
        assert(ps =~= Seq::<int>::empty());
        return Some(out);
    }
    let ghost mut done: Seq<int> = Seq::empty();
    let mut i: usize = 0;
    while i <= t.len() - n
        invariant
            tb == searched_bytes(line@, case_sensitive),
            sb == searched_bytes(search@, case_sensitive),
            t@ == tb,
            s@ == sb,
            t_str.spec_bytes() == tb,
            line.spec_bytes() == lb,
            lb == encode_utf8(line@),
            n == sb.len(),
            n0 == encode_utf8(search@).len(),
            len == lb.len(),
            0 < n <= tb.len(),
            i <= tb.len() - n + 1,
            ps == match_positions(tb, sb, 0),
            ps == done + match_positions(tb, sb, i as int),
            out@.len() == done.len(),
            forall|k: int| 0 <= k < done.len() ==> match_fits(lb, tb, n as int, n0 as int, #[trigger] done[k]),
            forall|k: int| 0 <= k < out@.len() ==> reports_match(#[trigger] out@[k], done[k], line@, line_num, script_name@, search@, case_sensitive),
        decreases tb.len() - n + 1 - i,
    {
        let hit = bytes_equal_at(t, s, i);
        let ghost rest = match_positions(tb, sb, i + 1);
        assert(match_positions(tb, sb, i as int) == if hit { seq![i as int] + rest } else { rest });
        if hit {
            let ghost at = done.len();
            assert(ps[at as int] == i as int);
            let lim: usize = usize::MAX - 10;
            let fits = n <= lim && i <= lim - n && t_str.is_char_boundary(i + 1) && n0 <= len && i <= len - n0;
            if !fits {
                assert(!match_fits(lb, tb, n as int, n0 as int, ps[at as int]));
                return None;
            }
            let cs = if i >= 10 {
                i - 10
            } else {
                0
            };
            let ce = if i + n + 10 <= len {
                i + n + 10
            } else {
                len
            };
            let b = i + n0;
            if !(b <= ce && line.is_char_boundary(cs) && line.is_char_boundary(i) && line.is_char_boundary(b)
                && line.is_char_boundary(ce)) {
                assert(!match_fits(lb, tb, n as int, n0 as int, ps[at as int]));
                return None;
            }
            assert(match_fits(lb, tb, n as int, n0 as int, i as int));
            let r = SearchResult {
                script_name: script_name.to_owned(),
                line: line_num,
                column: i + 1,
                match_text: byte_slice(line, i, b),
                context_before: byte_slice(line, cs, i),
                context_after: byte_slice(line, b, ce),
            };
            assert(reports_match(r, i as int, line@, line_num, script_name@, search@, case_sensitive));
            out.push(r);
            proof {
                done = done.push(i as int);
                assert(ps =~= done + rest);
            }
        }
        i = i + 1;
    }
    assert(match_positions(tb, sb, i as int) =~= Seq::<int>::empty());
    assert(done =~= ps);
    Some(out)
}

/// The matches of `search` in `line` (the line numbered `line_num` of the
/// script `script_name`): every byte position where the search occurs, in
/// the line itself or, ignoring case, in the lowercase forms of both, with
/// the bytes matched and up to ten bytes of context on each side. Where a
/// match cannot be cut out of the line, or the search is empty, no search
/// is made: `requires` leaves that out.
pub fn find_text_matches(line: &str, line_num: usize, script_name: &str, search: &str, case_sensitive: bool) -> (r: Vec<SearchResult>)
    requires
        search_fits(line@, search@, case_sensitive),
    ensures
        reports_matches(r@, line@, line_num, script_name@, search@, case_sensitive),
{
    match try_find_text_matches(line, line_num, script_name, search, case_sensitive) {
        Some(v) => v,
        None => Vec::new(),
    }
}

/// The matches of `search` in one line, as [`find_text_matches`] gives
/// them; `None` where that search cannot be made.
pub fn search_line(line: &str, line_num: usize, script_name: &str, search: &str, case_sensitive: bool) -> (r: Option<Vec<SearchResult>>)
    ensures
        r is Some <==> search_fits(line@, search@, case_sensitive),
        r matches Some(v) ==> reports_matches(v@, line@, line_num, script_name@, search@, case_sensitive),
{
    match try_find_text_matches(line, line_num, script_name, search, case_sensitive) {
        Some(_) => Some(find_text_matches(line, line_num, script_name, search, case_sensitive)),
        None => None,
    }
}

// ---------------------------------------------------------------------
// Replacing
// ---------------------------------------------------------------------

/// The first character position from `i` on where `p` occurs in `s`.
pub open spec fn first_char_match(s: Seq<char>, p: Seq<char>, i: int) -> Option<int>
    decreases s.len() + 1 - i,
{
    if i < 0 || i + p.len() > s.len() {
        None
    } else if s.subrange(i, i + p.len()) == p {
        Some(i)
    } else {
        first_char_match(s, p, i + 1)
    }
}

/// `to` before every character of `s` and at its end.
pub open spec fn inserted_everywhere(s: Seq<char>, to: Seq<char>) -> Seq<char>
    decreases s.len(),
{
    if s.len() == 0 {
        to
    } else {
        to + seq![s[0]] + inserted_everywhere(s.drop_first(), to)
    }
}

/// What `str::replace` gives: each occurrence of `from` in `s`, taken from
/// the left and without overlap, becomes `to`; an empty `from` occurs
/// before every character and at the end.
pub open spec fn replaced_text(s: Seq<char>, from: Seq<char>, to: Seq<char>) -> Seq<char>
    decreases s.len(),
{
    if from.len() == 0 {
        inserted_everywhere(s, to)
    } else {
        match first_char_match(s, from, 0) {
            Some(i) => if 0 <= i && i + from.len() <= s.len() {
                s.subrange(0, i) + to + replaced_text(s.subrange(i + from.len(), s.len() as int), from, to)
            } else {
                s
            },
            None => s,
        }
    }
}

/// `str::replace`: claimed to give [`replaced_text`] of its arguments, the
/// leftmost occurrences being replaced without overlap as std documents
/// for the matches of a pattern.
#[verifier::external_body]
fn replace_text(s: &str, from: &str, to: &str) -> (r: String)
    ensures
        r@ == replaced_text(s@, from@, to@),
{
    s.replace(from, to)
}

/// The first byte position from `i` on where `s` occurs in `t`.
pub open spec fn first_match(t: Seq<u8>, s: Seq<u8>, i: int) -> Option<int>
    decreases t.len() + 1 - i,
{
    if i < 0 || i + s.len() > t.len() {
        None
    } else if bytes_at(t, s, i) {
        Some(i)
    } else {
        first_match(t, s, i + 1)
    }
}

/// The characters of `r` before its byte `p`.
pub open spec fn chars_before(r: Seq<char>, p: int) -> Seq<char> {
    decode_utf8(encode_utf8(r).subrange(0, p))
}

/// The characters of `r` from its byte `p` on.
pub open spec fn chars_from(r: Seq<char>, p: int) -> Seq<char> {
    decode_utf8(encode_utf8(r).subrange(p, encode_utf8(r).len() as int))
}

/// Whether a match at byte `p` of `n0` bytes can be cut out of `r`.
pub open spec fn cut_fits(r: Seq<char>, p: int, n0: int) -> bool {
    &&& n0 > 0
    &&& 0 <= p
    &&& p + n0 <= encode_utf8(r).len()
    &&& is_char_boundary(encode_utf8(r), p)
    &&& is_char_boundary(encode_utf8(r), p + n0)
}

/// Cutting a text at a character boundary past its start leaves fewer
/// bytes.
pub proof fn lemma_chars_from_shorter(r: Seq<char>, q: int)
    requires
        0 < q <= encode_utf8(r).len(),
        is_char_boundary(encode_utf8(r), q),
    ensures
        encode_utf8(chars_from(r, q)) == encode_utf8(r).subrange(q, encode_utf8(r).len() as int),
        encode_utf8(chars_from(r, q)).len() < encode_utf8(r).len(),
{
    let b = encode_utf8(r);
    vstd::utf8::encode_utf8_valid_utf8(r);
    vstd::utf8::valid_utf8_split(b, q);
    vstd::utf8::decode_utf8_encode_utf8(b.subrange(q, b.len() as int));
}

/// Replacing while ignoring case: the first place where the lowercase
/// search bytes `s` occur in the lowercase form of the remaining text `r`
/// is taken as a byte position of `r` itself, the `n0` bytes of the search
/// as typed are cut out there and `to` put in, and the rest is treated the
/// same way.
pub open spec fn replaced_ignoring_case(r: Seq<char>, s: Seq<u8>, n0: int, to: Seq<char>) -> Seq<char>
    decreases encode_utf8(r).len(),
{
    match first_match(encode_utf8(lowercase_of(r)), s, 0) {
        Some(p) => if cut_fits(r, p, n0) {
            proof {
                lemma_chars_from_shorter(r, p + n0);
            }
            chars_before(r, p) + to + replaced_ignoring_case(chars_from(r, p + n0), s, n0, to)
        } else {
            r
        },
        None => r,
    }
}

/// Whether replacing while ignoring case can be done: the search is not
/// empty, and every place found can be cut out of the remaining text.
pub open spec fn ignoring_case_fits(r: Seq<char>, s: Seq<u8>, n0: int) -> bool
    decreases encode_utf8(r).len(),
{
    match first_match(encode_utf8(lowercase_of(r)), s, 0) {
        Some(p) => if cut_fits(r, p, n0) {
            proof {
                lemma_chars_from_shorter(r, p + n0);
            }
            ignoring_case_fits(chars_from(r, p + n0), s, n0)
        } else {
            false
        },
        None => n0 > 0,
    }
}

/// The first place from byte 0 where `s` occurs in `t`.
fn find_first(t: &[u8], s: &[u8]) -> (r: Option<usize>)
    ensures
        match r {
            Some(p) => first_match(t@, s@, 0) == Some(p as int),
            None => first_match(t@, s@, 0) is None,
        },
{
    let n = s.len();
    let tl = t.len();
    if n > tl {
        return None;
    }
    if n == 0 {
        assert(t@.subrange(0, 0) =~= s@);
        return Some(0);
    }
    let mut i: usize = 0;
    while i <= tl - n
        invariant
            n == s@.len(),
            tl == t@.len(),
            0 < n <= tl,
            i <= tl - n + 1,
            first_match(t@, s@, 0) == first_match(t@, s@, i as int),
        decreases tl - n + 1 - i,
    {
        if bytes_equal_at(t, s, i) {
            return Some(i);
        }
        i = i + 1;
    }
    None
}

proof fn lemma_step_none(r: Seq<char>, sb: Seq<u8>, m: int, to: Seq<char>)
    requires
        first_match(encode_utf8(lowercase_of(r)), sb, 0) is None,
    ensures
        ignoring_case_fits(r, sb, m) == (m > 0),
        replaced_ignoring_case(r, sb, m, to) == r,
{
}

proof fn lemma_step_cut(r: Seq<char>, sb: Seq<u8>, m: int, to: Seq<char>, p: int)
    requires
        first_match(encode_utf8(lowercase_of(r)), sb, 0) == Some(p),
        cut_fits(r, p, m),
    ensures
        ignoring_case_fits(r, sb, m) == ignoring_case_fits(chars_from(r, p + m), sb, m),
        replaced_ignoring_case(r, sb, m, to) == chars_before(r, p) + to + replaced_ignoring_case(chars_from(r, p + m), sb, m, to),
{
}

proof fn lemma_step_bad(r: Seq<char>, sb: Seq<u8>, m: int, p: int)
    requires
        first_match(encode_utf8(lowercase_of(r)), sb, 0) == Some(p),
        !cut_fits(r, p, m),
    ensures
        !ignoring_case_fits(r, sb, m),
{
}

/// Replacing while ignoring case, or nothing where it cannot be done.
#[verifier::spinoff_prover]
#[verifier::rlimit(40)]
fn try_replace_ignoring_case(code: &str, search: &str, replace: &str) -> (r: Option<String>)
    ensures
        r is Some <==> ignoring_case_fits(code@, searched_bytes(search@, false), encode_utf8(search@).len() as int),
        r matches Some(x) ==> x@ == replaced_ignoring_case(code@, searched_bytes(search@, false), encode_utf8(search@).len() as int, replace@),
{
    let lower_search = to_lowercase(search);
    let s = lower_search.as_str().as_bytes();
    let ghost sb = searched_bytes(search@, false);
    assert(s@ == sb);
    let n0 = search.as_bytes().len();
    let ghost m = n0 as int;
    assert(search.spec_bytes() == encode_utf8(search@));
    let mut out: Vec<char> = Vec::new();
    let mut remaining: &str = code;
    loop
        invariant
            sb == searched_bytes(search@, false),
            s@ == sb,
            m == encode_utf8(search@).len(),
            m == n0,
            ignoring_case_fits(code@, sb, m) == ignoring_case_fits(remaining@, sb, m),
            replaced_ignoring_case(code@, sb, m, replace@) == out@ + replaced_ignoring_case(remaining@, sb, m, replace@),
        decreases encode_utf8(remaining@).len(),
    {
        let lower = to_lowercase(remaining);
        let t = lower.as_str().as_bytes();
        let ghost rem = remaining@;
        assert(t@ == encode_utf8(lowercase_of(rem)));
        match find_first(t, s) {
            None => {
                proof {
                    lemma_step_none(rem, sb, m, replace@);
                }
                if n0 == 0 {
                    return None;
                }
                push_str_chars(&mut out, remaining);
                return Some(string_from_chars(out.as_slice()));
            },
            Some(p) => {
                let len = remaining.as_bytes().len();
                assert(remaining.spec_bytes() == encode_utf8(rem));
                if !(n0 > 0 && p <= len && n0 <= len - p && remaining.is_char_boundary(p) && remaining.is_char_boundary(p + n0)) {
                    proof {
                        lemma_step_bad(rem, sb, m, p as int);
                    }
                    return None;
                }
                proof {
                    lemma_step_cut(rem, sb, m, replace@, p as int);
                }
                let (head, _) = remaining.split_at(p);
                let (_, tail) = remaining.split_at(p + n0);
                proof {
                    vstd::utf8::encode_utf8_decode_utf8(head@);
                    vstd::utf8::encode_utf8_decode_utf8(tail@);
                    assert(head@ == chars_before(rem, p as int));
                    assert(tail@ == chars_from(rem, (p + n0) as int));
                    lemma_chars_from_shorter(rem, (p + n0) as int);
                }
                let ghost before = out@;
                push_str_chars(&mut out, head);
                push_str_chars(&mut out, replace);
                remaining = tail;
                assert(out@ + replaced_ignoring_case(remaining@, sb, m, replace@) =~= before + (chars_before(rem, p as int) + replace@ + replaced_ignoring_case(remaining@, sb, m, replace@)));
            },
        }
    }
}

/// Whether replacing `search` in `code` can be done: matching case always;
/// ignoring it, when every place found can be cut out of the text (see
/// [`ignoring_case_fits`]).
pub open spec fn replace_fits(code: Seq<char>, search: Seq<char>, case_sensitive: bool) -> bool {
    case_sensitive || ignoring_case_fits(code, searched_bytes(search, false), encode_utf8(search).len() as int)
}

/// The text after replacing every `search` in `code` by `replace`.
pub open spec fn replaced_code(code: Seq<char>, search: Seq<char>, replace: Seq<char>, case_sensitive: bool) -> Seq<char> {
    if case_sensitive {
        replaced_text(code, search, replace)
    } else {
        replaced_ignoring_case(code, searched_bytes(search, false), encode_utf8(search).len() as int, replace)
    }
}

/// Replaces every occurrence of `search` in `code` by `replace`: with
/// `str::replace` when case matters, and otherwise as
/// [`replaced_ignoring_case`] says. Where a place found cannot be cut out,
/// or the search is empty while ignoring case, no replacement is made:
/// `requires` leaves that out.
pub fn replace_all(code: &str, search: &str, replace: &str, case_sensitive: bool) -> (r: String)
    requires
        replace_fits(code@, search@, case_sensitive),
    ensures
        r@ == replaced_code(code@, search@, replace@, case_sensitive),
{
    if case_sensitive {
        replace_text(code, search, replace)
    } else {
        match try_replace_ignoring_case(code, search, replace) {
            Some(x) => x,
            None => String::new(),
        }
    }
}

/// The replacement of [`replace_all`], or `None` where it cannot be made.
pub fn try_replace_all(code: &str, search: &str, replace: &str, case_sensitive: bool) -> (r: Option<String>)
    ensures
        r is Some <==> replace_fits(code@, search@, case_sensitive),
        r matches Some(x) ==> x@ == replaced_code(code@, search@, replace@, case_sensitive),
{
    if case_sensitive || try_replace_ignoring_case(code, search, replace).is_some() {
        Some(replace_all(code, search, replace, case_sensitive))
    } else {
        None
    }
}

} // verus!
