//! Small verified text helpers: decimal rendering, substring search and
//! replacement, and the line tests the import-insertion heuristic uses.

use vstd::prelude::*;
use vstd::string::*;

use crate::similarity::chars_of;

verus! {

/// The digit character for `d`.
pub open spec fn dec_digit(d: int) -> char
    recommends
        0 <= d <= 9,
{
    (48 + d) as char
}

/// The decimal form of `n`, most significant digit first.
pub open spec fn dec_str(n: int) -> Seq<char>
    recommends
        n >= 0,
    decreases n,
{
    if n < 10 {
        seq![dec_digit(n)]
    } else {
        dec_str(n / 10).push(dec_digit(n % 10))
    }
}

/// The one-character string for digit `d`.
fn digit_str(d: usize) -> (r: &'static str)
    requires
        d < 10,
    ensures
        r@ =~= seq![dec_digit(d as int)],
{
    let r: &'static str = match d {
        0 => "0",
        1 => "1",
        2 => "2",
        3 => "3",
        4 => "4",
        5 => "5",
        6 => "6",
        7 => "7",
        8 => "8",
        _ => "9",
    };
    proof {
        reveal_strlit("0");
        reveal_strlit("1");
        reveal_strlit("2");
        reveal_strlit("3");
        reveal_strlit("4");
        reveal_strlit("5");
        reveal_strlit("6");
        reveal_strlit("7");
        reveal_strlit("8");
        reveal_strlit("9");
    }
    r
}

/// Append the decimal form of `n` to `out`.
fn push_dec(n: usize, out: &mut String)
    ensures
        final(out)@ == old(out)@ + dec_str(n as int),
    decreases n,
{
    if n < 10 {
        out.append(digit_str(n));
        proof {
            assert(final(out)@ =~= old(out)@ + dec_str(n as int));
        }
    } else {
        assert(n / 10 < n && n / 10 >= 1) by (nonlinear_arith)
            requires
                n >= 10,
        ;
        push_dec(n / 10, out);
        out.append(digit_str(n % 10));
        proof {
            assert(final(out)@ =~= old(out)@ + dec_str(n as int));
        }
    }
}

/// The decimal form of `n` as a string.
pub fn usize_to_string(n: usize) -> (r: String)
    ensures
        r@ == dec_str(n as int),
{
    let mut s = String::new();
    push_dec(n, &mut s);
    proof {
        assert(s@ =~= dec_str(n as int));
    }
    s
}

/// `needle` occurs in `hay` as a contiguous subsequence.
pub open spec fn seq_contains(hay: Seq<char>, needle: Seq<char>) -> bool {
    exists|i: int|
        0 <= i && i + needle.len() <= hay.len() && #[trigger] hay.subrange(i, i + needle.len())
            == needle
}

/// Whether `pat` matches `hay` at position `i`.
fn match_at(hay: &Vec<char>, pat: &Vec<char>, i: usize) -> (r: bool)
    requires
        i + pat@.len() <= hay@.len(),
    ensures
        r == (hay@.subrange(i as int, i + pat@.len()) == pat@),
{
    let hl = hay.len();
    let mut k: usize = 0;
    while k < pat.len()
        invariant
            k <= pat@.len(),
            i + pat@.len() <= hay@.len(),
            hay@.len() <= usize::MAX,
            forall|j: int| 0 <= j < k ==> hay@[i + j] == pat@[j],
        decreases pat@.len() - k,
    {
        if hay[i + k] != pat[k] {
            proof {
                assert(hay@.subrange(i as int, i + pat@.len())[k as int] == hay@[i + k]);
            }
            return false;
        }
        k += 1;
    }
    proof {
        assert(hay@.subrange(i as int, i + pat@.len()) =~= pat@);
    }
    true
}

/// Whether `needle` occurs anywhere in `hay`.
pub fn str_contains(hay: &str, needle: &str) -> (r: bool)
    ensures
        r == seq_contains(hay@, needle@),
{
    let h = chars_of(hay);
    let n = chars_of(needle);
    if n.len() > h.len() {
        proof {
            assert(!seq_contains(hay@, needle@));
        }
        return false;
    }
    if n.len() == 0 {
        proof {
            assert(hay@.subrange(0, 0 + needle@.len() as int) =~= needle@);
            assert(seq_contains(hay@, needle@));
        }
        return true;
    }
    let mut i: usize = 0;
    while i <= h.len() - n.len()
        invariant
            1 <= n@.len() <= h@.len(),
            h@ == hay@,
            n@ == needle@,
            i <= h@.len() - n@.len() + 1,
            forall|j: int|
                0 <= j < i ==> #[trigger] hay@.subrange(j, j + needle@.len()) != needle@,
        decreases h@.len() - n@.len() + 1 - i,
    {
        if match_at(&h, &n, i) {
            return true;
        }
        i += 1;
    }
    false
}

/// `s` with every leftmost, non-overlapping occurrence of `old_pat`
/// replaced by `new_pat`; an empty pattern leaves `s` unchanged.
pub open spec fn spec_replace_all(s: Seq<char>, old_pat: Seq<char>, new_pat: Seq<char>) -> Seq<char>
    decreases s.len(),
{
    if old_pat.len() == 0 || s.len() == 0 {
        s
    } else if s.len() >= old_pat.len() && s.take(old_pat.len() as int) == old_pat {
        new_pat + spec_replace_all(s.skip(old_pat.len() as int), old_pat, new_pat)
    } else {
        seq![s[0]] + spec_replace_all(s.drop_first(), old_pat, new_pat)
    }
}

/// Replace every leftmost, non-overlapping occurrence of `old_pat` in
/// `line` by `new_pat`.
pub fn replace_all(line: &str, old_pat: &str, new_pat: &str) -> (r: String)
    ensures
        r@ == spec_replace_all(line@, old_pat@, new_pat@),
{
    let h = chars_of(line);
    let p = chars_of(old_pat);
    if p.len() == 0 {
        return line.to_owned();
    }
    let mut out = String::new();
    let mut i: usize = 0;
    let n = h.len();
    proof {
        assert(line@.skip(0) =~= line@);
        assert(out@ + spec_replace_all(line@, old_pat@, new_pat@) =~= spec_replace_all(
            line@,
            old_pat@,
            new_pat@,
        ));
    }
    while i < n
        invariant
            h@ == line@,
            p@ == old_pat@,
            p@.len() >= 1,
            n == h@.len(),
            i <= n,
            spec_replace_all(line@, old_pat@, new_pat@) == out@ + spec_replace_all(
                line@.skip(i as int),
                old_pat@,
                new_pat@,
            ),
        decreases n - i,
    {
        let ghost rem = line@.skip(i as int);
        if p.len() <= n - i && match_at(&h, &p, i) {
            proof {
                assert(rem.take(p@.len() as int) =~= h@.subrange(i as int, i + p@.len()));
                assert(rem.skip(p@.len() as int) =~= line@.skip(i + p@.len()));
            }
            out.append(new_pat);
            i += p.len();
        } else {
            proof {
                if i + p@.len() <= n {
                    assert(rem.take(p@.len() as int) =~= h@.subrange(i as int, i + p@.len()));
                }
                assert(rem[0] == line@[i as int]);
                assert(rem.drop_first() =~= line@.skip(i + 1));
                assert(seq![rem[0]] =~= line@.subrange(i as int, i + 1));
            }
            out.append(line.substring_char(i, i + 1));
            i += 1;
        }
    }
    proof {
        assert(line@.skip(n as int) =~= Seq::<char>::empty());
        assert(out@ + Seq::<char>::empty() =~= out@);
    }
    out
}

/// A whitespace character, for line trimming.
pub open spec fn is_ws(c: char) -> bool {
    c == ' ' || c == '\t' || c == '\r'
}

/// `s` without its leading whitespace.
pub open spec fn trim_start(s: Seq<char>) -> Seq<char>
    decreases s.len(),
{
    if s.len() > 0 && is_ws(s[0]) {
        trim_start(s.drop_first())
    } else {
        s
    }
}

/// `p` is a prefix of `s`.
pub open spec fn starts_with_chars(s: Seq<char>, p: Seq<char>) -> bool {
    p.len() <= s.len() && s.take(p.len() as int) == p
}

/// Trimming skips exactly the leading run of whitespace.
proof fn lemma_trim_skip(s: Seq<char>, j: int)
    requires
        0 <= j <= s.len(),
        forall|k: int| 0 <= k < j ==> is_ws(s[k]),
        j == s.len() || !is_ws(s[j]),
    ensures
        trim_start(s) == s.skip(j),
    decreases j,
{
    if j == 0 {
        assert(s.skip(0) =~= s);
    } else {
        lemma_trim_skip(s.drop_first(), j - 1);
        assert(s.drop_first().skip(j - 1) =~= s.skip(j));
    }
}

/// Whether `line`, leading whitespace ignored, starts with `prefix`.
pub fn line_starts_with_after_trim(line: &String, prefix: &str) -> (r: bool)
    ensures
        r == starts_with_chars(trim_start(line@), prefix@),
{
    let h = chars_of(line.as_str());
    let p = chars_of(prefix);
    let mut j: usize = 0;
    while j < h.len() && (h[j] == ' ' || h[j] == '\t' || h[j] == '\r')
        invariant
            h@ == line@,
            j <= h@.len(),
            forall|k: int| 0 <= k < j ==> is_ws(h@[k]),
        decreases h@.len() - j,
    {
        j += 1;
    }
    proof {
        lemma_trim_skip(line@, j as int);
    }
    if p.len() > h.len() - j {
        return false;
    }
    let r = match_at(&h, &p, j);
    proof {
        assert(line@.skip(j as int).take(p@.len() as int) =~= h@.subrange(
            j as int,
            j + p@.len(),
        ));
    }
    r
}

/// `s` starts with an upper-case ASCII letter.
pub open spec fn starts_uppercase(s: Seq<char>) -> bool {
    s.len() > 0 && 65 <= s[0] as int <= 90
}

/// Whether `s` starts with an upper-case ASCII letter.
pub fn is_capitalized(s: &str) -> (r: bool)
    ensures
        r == starts_uppercase(s@),
{
    let n = s.unicode_len();
    if n == 0 {
        return false;
    }
    let c = s.get_char(0);
    let code = c as u32;
    65 <= code && code <= 90
}

/// `s` without its trailing newline characters.
pub open spec fn trim_trailing_newlines(s: Seq<char>) -> Seq<char>
    decreases s.len(),
{
    if s.len() > 0 && s.last() == '\n' {
        trim_trailing_newlines(s.drop_last())
    } else {
        s
    }
}

/// Strip every trailing newline from `s`.
pub fn strip_trailing_newlines(s: &str) -> (r: String)
    ensures
        r@ == trim_trailing_newlines(s@),
{
    let h = chars_of(s);
    let mut end: usize = h.len();
    proof {
        assert(s@.take(end as int) =~= s@);
    }
    while end > 0 && h[end - 1] == '\n'
        invariant
            h@ == s@,
            end <= h@.len(),
            trim_trailing_newlines(s@) == trim_trailing_newlines(s@.take(end as int)),
        decreases end,
    {
        proof {
            let t = s@.take(end as int);
            assert(t.last() == '\n');
            assert(t.drop_last() =~= s@.take(end - 1));
        }
        end -= 1;
    }
    let r = s.substring_char(0, end);
    proof {
        let t = s@.take(end as int);
        assert(r@ =~= t);
        if end > 0 {
            assert(t.last() == s@[end - 1]);
        }
        assert(trim_trailing_newlines(t) == t);
    }
    r.to_owned()
}

} // verus!
