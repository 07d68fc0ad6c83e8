//! Character and string utilities shared by the preprocessor and the
//! classifier: whitespace recognition, string equality, and the trimming and
//! comment-stripping that turn a raw source line into a significant line.

use vstd::prelude::*;

verus! {

/// The whitespace characters, as `str::trim` understands them.
pub open spec fn is_space(c: char) -> bool {
    ||| c == ' '
    ||| c == '\t'
    ||| c == '\n'
    ||| c == '\u{b}'
    ||| c == '\u{c}'
    ||| c == '\r'
    ||| c == '\u{85}'
    ||| c == '\u{a0}'
    ||| c == '\u{1680}'
    ||| c == '\u{2000}'
    ||| c == '\u{2001}'
    ||| c == '\u{2002}'
    ||| c == '\u{2003}'
    ||| c == '\u{2004}'
    ||| c == '\u{2005}'
    ||| c == '\u{2006}'
    ||| c == '\u{2007}'
    ||| c == '\u{2008}'
    ||| c == '\u{2009}'
    ||| c == '\u{200a}'
    ||| c == '\u{2028}'
    ||| c == '\u{2029}'
    ||| c == '\u{202f}'
    ||| c == '\u{205f}'
    ||| c == '\u{3000}'
}

fn is_space_char(c: char) -> (r: bool)
    ensures
        r == is_space(c),
{
    c == ' ' || c == '\t' || c == '\n' || c == '\u{b}' || c == '\u{c}' || c == '\r'
        || c == '\u{85}' || c == '\u{a0}' || c == '\u{1680}' || c == '\u{2000}' || c == '\u{2001}'
        || c == '\u{2002}' || c == '\u{2003}' || c == '\u{2004}' || c == '\u{2005}'
        || c == '\u{2006}' || c == '\u{2007}' || c == '\u{2008}' || c == '\u{2009}'
        || c == '\u{200a}' || c == '\u{2028}' || c == '\u{2029}' || c == '\u{202f}'
        || c == '\u{205f}' || c == '\u{3000}'
}

/// The length of the longest prefix of `s` whose characters all satisfy `p`.
pub open spec fn scan_while(s: Seq<char>, p: spec_fn(char) -> bool) -> int
    decreases s.len(),
{
    if s.len() > 0 && p(s[0]) {
        1 + scan_while(s.drop_first(), p)
    } else {
        0
    }
}

/// Where the longest suffix of `s` whose characters all satisfy `p` begins.
pub open spec fn scan_end_while(s: Seq<char>, p: spec_fn(char) -> bool) -> int
    decreases s.len(),
{
    if s.len() > 0 && p(s.last()) {
        scan_end_while(s.drop_last(), p)
    } else {
        s.len() as int
    }
}

pub proof fn lemma_scan_while(s: Seq<char>, p: spec_fn(char) -> bool)
    ensures
        0 <= scan_while(s, p) <= s.len(),
        forall|j: int| 0 <= j < scan_while(s, p) ==> p(s[j]),
        scan_while(s, p) < s.len() ==> !p(s[scan_while(s, p)]),
    decreases s.len(),
{
    if s.len() > 0 && p(s[0]) {
        lemma_scan_while(s.drop_first(), p);
        assert(forall|j: int|
            0 <= j < scan_while(s.drop_first(), p) ==> p(#[trigger] s.drop_first()[j]));
        assert(forall|j: int| 1 <= j < scan_while(s, p) ==> p(s.drop_first()[j - 1]) && s[j]
            == s.drop_first()[j - 1]);
    }
}

/// A boundary that has `p` on its left and stops at its right is the one
/// `scan_while` finds.
pub proof fn lemma_scan_while_unique(s: Seq<char>, p: spec_fn(char) -> bool, a: int)
    requires
        0 <= a <= s.len(),
        forall|j: int| 0 <= j < a ==> p(s[j]),
        a < s.len() ==> !p(s[a]),
    ensures
        a == scan_while(s, p),
{
    lemma_scan_while(s, p);
    let w = scan_while(s, p);
    if a < w {
        assert(p(s[a]));
    }
    if a > w {
        assert(p(s[w]));
    }
}

pub proof fn lemma_scan_end_while(s: Seq<char>, p: spec_fn(char) -> bool)
    ensures
        0 <= scan_end_while(s, p) <= s.len(),
        forall|j: int| scan_end_while(s, p) <= j < s.len() ==> p(s[j]),
        scan_end_while(s, p) > 0 ==> !p(s[scan_end_while(s, p) - 1]),
    decreases s.len(),
{
    if s.len() > 0 && p(s.last()) {
        lemma_scan_end_while(s.drop_last(), p);
        assert forall|j: int| scan_end_while(s, p) <= j < s.len() implies p(s[j]) by {
            if j < s.len() - 1 {
                assert(p(s.drop_last()[j]));
                assert(s[j] == s.drop_last()[j]);
            } else {
                assert(p(s.last()));
            }
        }
    }
}

/// A boundary that stops at its left and has `p` on its right is the one
/// `scan_end_while` finds.
pub proof fn lemma_scan_end_while_unique(s: Seq<char>, p: spec_fn(char) -> bool, b: int)
    requires
        0 <= b <= s.len(),
        forall|j: int| b <= j < s.len() ==> p(s[j]),
        b > 0 ==> !p(s[b - 1]),
    ensures
        b == scan_end_while(s, p),
{
    lemma_scan_end_while(s, p);
    let w = scan_end_while(s, p);
    if b < w {
        assert(p(s[w - 1]));
    }
    if b > w {
        assert(p(s[b - 1]));
    }
}

/// A comment marker `//` stands at position `i` of `s`.
pub open spec fn is_comment_at(s: Seq<char>, i: int) -> bool {
    0 <= i && i + 2 <= s.len() && s[i] == '/' && s[i + 1] == '/'
}

/// The position of the first comment marker in `s`, or the length of `s`
/// when it has none.
pub open spec fn comment_start(s: Seq<char>) -> int
    decreases s.len(),
{
    if s.len() < 2 {
        s.len() as int
    } else if s[0] == '/' && s[1] == '/' {
        0
    } else {
        1 + comment_start(s.drop_first())
    }
}

pub proof fn lemma_comment_start(s: Seq<char>)
    ensures
        0 <= comment_start(s) <= s.len(),
        comment_start(s) < s.len() ==> is_comment_at(s, comment_start(s)),
        forall|j: int| 0 <= j < comment_start(s) ==> !is_comment_at(s, j),
    decreases s.len(),
{
    if s.len() >= 2 && !(s[0] == '/' && s[1] == '/') {
        lemma_comment_start(s.drop_first());
        let c = comment_start(s.drop_first());
        if c < s.len() - 1 {
            assert(s.drop_first()[c] == s[c + 1] && s.drop_first()[c + 1] == s[c + 2]);
        }
        assert forall|j: int| 1 <= j < comment_start(s) implies !is_comment_at(s, j) by {
            if is_comment_at(s, j) {
                assert(s.drop_first()[j - 1] == s[j] && s.drop_first()[j] == s[j + 1]);
                assert(is_comment_at(s.drop_first(), j - 1));
            }
        }
    }
}

/// A position with no marker on its left, and a marker at it unless it is
/// the end, is where the first comment starts.
pub proof fn lemma_comment_start_unique(s: Seq<char>, a: int)
    requires
        0 <= a <= s.len(),
        forall|j: int| 0 <= j < a ==> !is_comment_at(s, j),
        a < s.len() ==> is_comment_at(s, a),
    ensures
        a == comment_start(s),
{
    lemma_comment_start(s);
    let c = comment_start(s);
    if a < c {
        assert(is_comment_at(s, a));
        assert(!is_comment_at(s, a));
    }
    if a > c {
        assert(is_comment_at(s, c));
        assert(!is_comment_at(s, c));
    }
}

/// `s` truncated at its first comment marker.
pub open spec fn strip_comment(s: Seq<char>) -> Seq<char> {
    s.take(comment_start(s))
}

/// `s` without leading and trailing whitespace.
pub open spec fn trim_spec(s: Seq<char>) -> Seq<char> {
    let a = scan_while(s, |c: char| is_space(c));
    let b = scan_end_while(s, |c: char| is_space(c));
    if a == s.len() {
        Seq::empty()
    } else {
        s.subrange(a, b)
    }
}

/// A raw source line reduced to its significant text: the part before any
/// comment marker, without surrounding whitespace.
pub open spec fn clean_line(s: Seq<char>) -> Seq<char> {
    trim_spec(strip_comment(s))
}

/// Truncate `line` at the first `//` and trim surrounding whitespace.
pub fn clean<'a>(line: &'a str) -> (r: &'a str)
    ensures
        r@ == clean_line(line@),
{
    let n = line.unicode_len();
    let mut i: usize = 0;
    let mut cut: usize = n;
    while n - i > 1 && cut == n
        invariant
            n == line@.len(),
            i <= n,
            cut == n || (cut == i && is_comment_at(line@, cut as int)),
            forall|j: int| 0 <= j < i ==> !is_comment_at(line@, j),
        decreases n - i + (if cut == n {
            1int
        } else {
            0int
        }),
    {
        if line.get_char(i) == '/' && line.get_char(i + 1) == '/' {
            cut = i;
        } else {
            i = i + 1;
        }
    }
    proof {
        if cut == n {
            assert(forall|j: int| 0 <= j < n ==> !is_comment_at(line@, j));
        }
        lemma_comment_start_unique(line@, cut as int);
    }
    let ghost t = strip_comment(line@);
    assert(t =~= line@.subrange(0, cut as int));
    let mut a: usize = 0;
    while a < cut && is_space_char(line.get_char(a))
        invariant
            n == line@.len(),
            cut <= n,
            a <= cut,
            t == line@.subrange(0, cut as int),
            forall|j: int| 0 <= j < a ==> is_space(#[trigger] t[j]),
        decreases cut - a,
    {
        a = a + 1;
    }
    let mut b: usize = cut;
    while b > a && is_space_char(line.get_char(b - 1))
        invariant
            n == line@.len(),
            cut <= n,
            a <= b <= cut,
            t == line@.subrange(0, cut as int),
            forall|j: int| b <= j < cut ==> is_space(#[trigger] t[j]),
        decreases b,
    {
        b = b - 1;
    }
    let r = line.substring_char(a, b);
    proof {
        let sp = |c: char| is_space(c);
        if a == cut {
            lemma_scan_while_unique(t, sp, a as int);
        } else {
            assert(!sp(t[a as int]));
            lemma_scan_while_unique(t, sp, a as int);
            if b == a {
                assert(is_space(t[a as int]));
                assert(false);
            }
            assert(!sp(t[b - 1]));
            lemma_scan_end_while_unique(t, sp, b as int);
        }
        assert(r@ =~= clean_line(line@));
    }
    r
}

/// Character-for-character string equality.
pub fn str_eq(a: &str, b: &str) -> (r: bool)
    ensures
        r == (a@ == b@),
{
    let a_len = a.unicode_len();
    let b_len = b.unicode_len();
    if a_len != b_len {
        return false;
    }
    let mut i: usize = 0;
    while i < a_len
        invariant
            a_len == a@.len(),
            b_len == b@.len(),
            a_len == b_len,
            i <= a_len,
            forall|j: int| 0 <= j < i ==> a@[j] == b@[j],
        decreases a_len - i,
    {
        if a.get_char(i) != b.get_char(i) {
            return false;
        }
        i = i + 1;
    }
    proof {
        assert(a@ =~= b@);
    }
    true
}

} // verus!
