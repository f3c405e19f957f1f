//! Text as a sequence of characters: white space, trimming, lines.
//!
//! The functions here say what they return over `Seq<char>`, the view that
//! Verus gives `str` and `String`. Those that look at single characters work
//! on `&[char]`, which `chars_of` makes from a `&str` in one pass.

use vstd::prelude::*;
use vstd::slice::slice_subrange;

verus! {

/// The characters of `s`.
pub fn chars_of(s: &str) -> (v: Vec<char>)
    ensures
        v@ == s@,
{
    broadcast use vstd::string::group_string_axioms;

    let mut v: Vec<char> = Vec::new();
    let chars = s.chars();
    for c in it: chars
        invariant
            it.seq() == s@,
            v@ == it.seq().take(it.index()),
    {
        v.push(c);
    }
    assert(v@ == s@);
    v
}

/// `String::from_iter` over the characters of a slice: the string that holds
/// exactly these characters, in this order.
#[verifier::external_body]
pub(crate) fn string_of(chars: &[char]) -> (s: String)
    ensures
        s@ == chars@,
{
    String::from_iter(chars.iter())
}

/// Whether two texts hold the same characters.
pub fn same_chars(a: &[char], b: &[char]) -> (r: bool)
    ensures
        r == (a@ == b@),
{
    if a.len() != b.len() {
        return false;
    }
    let mut i: usize = 0;
    while i < a.len()
        invariant
            i <= a@.len() == b@.len(),
            a@.take(i as int) == b@.take(i as int),
        decreases a@.len() - i,
    {
        if a[i] != b[i] {
            return false;
        }
        i += 1;
        assert(a@.take(i as int) == a@.take(i - 1).push(a@[i - 1]));
        assert(b@.take(i as int) == b@.take(i - 1).push(b@[i - 1]));
    }
    assert(a@ == a@.take(i as int));
    assert(b@ == b@.take(i as int));
    true
}

/// Whether `c` has the Unicode property `White_Space`.
pub open spec fn is_whitespace(c: char) -> bool {
    let n = c as u32;
    ||| 0x09 <= n <= 0x0D
    ||| n == 0x20
    ||| n == 0x85
    ||| n == 0xA0
    ||| n == 0x1680
    ||| 0x2000 <= n <= 0x200A
    ||| n == 0x2028
    ||| n == 0x2029
    ||| n == 0x202F
    ||| n == 0x205F
    ||| n == 0x3000
}

/// `s` without the white space it begins with.
pub open spec fn without_leading_space(s: Seq<char>) -> Seq<char>
    decreases s.len(),
{
    if s.len() > 0 && is_whitespace(s[0]) {
        without_leading_space(s.drop_first())
    } else {
        s
    }
}

/// `s` without the white space it ends with.
pub open spec fn without_trailing_space(s: Seq<char>) -> Seq<char>
    decreases s.len(),
{
    if s.len() > 0 && is_whitespace(s.last()) {
        without_trailing_space(s.drop_last())
    } else {
        s
    }
}

/// `s` without the white space at either end.
pub open spec fn trimmed(s: Seq<char>) -> Seq<char> {
    without_trailing_space(without_leading_space(s))
}

/// Whether trimming leaves `s` as it is.
pub open spec fn is_trimmed(s: Seq<char>) -> bool {
    s.len() > 0 ==> !is_whitespace(s[0]) && !is_whitespace(s.last())
}

/// Whether every character of `s` is white space.
pub open spec fn is_blank(s: Seq<char>) -> bool {
    forall|i: int| 0 <= i < s.len() ==> is_whitespace(#[trigger] s[i])
}

/// Skipping the leading white space of `s` drops exactly a blank prefix
/// that is followed by the end of `s` or by a character that is no white space.
pub proof fn lemma_leading_space(s: Seq<char>, a: int)
    requires
        0 <= a <= s.len(),
        is_blank(s.take(a)),
        a < s.len() ==> !is_whitespace(s[a]),
    ensures
        without_leading_space(s) == s.skip(a),
    decreases a,
{
    if a == 0 {
        assert(s.skip(0) =~= s);
    } else {
        assert(s.take(a)[0] == s[0]);
        let rest = s.drop_first();
        assert forall|i: int| 0 <= i < a - 1 implies is_whitespace(#[trigger] rest.take(a - 1)[i]) by {
            assert(rest.take(a - 1)[i] == s.take(a)[i + 1]);
        }
        lemma_leading_space(rest, a - 1);
        assert(rest.skip(a - 1) =~= s.skip(a));
    }
}

/// Skipping the trailing white space of `s` drops exactly a blank suffix
/// that follows the start of `s` or a character that is no white space.
pub proof fn lemma_trailing_space(s: Seq<char>, b: int)
    requires
        0 <= b <= s.len(),
        is_blank(s.skip(b)),
        b > 0 ==> !is_whitespace(s[b - 1]),
    ensures
        without_trailing_space(s) == s.take(b),
    decreases s.len() - b,
{
    if b == s.len() {
        assert(s.take(b) =~= s);
    } else {
        assert(s.skip(b)[s.len() - b - 1] == s.last());
        let rest = s.drop_last();
        assert forall|i: int| 0 <= i < rest.len() - b implies is_whitespace(
            #[trigger] rest.skip(b)[i],
        ) by {
            assert(rest.skip(b)[i] == s.skip(b)[i]);
        }
        lemma_trailing_space(rest, b);
        assert(rest.take(b) =~= s.take(b));
    }
}

/// A text that neither begins nor ends with white space is its own trimming.
pub proof fn lemma_trimmed_is_fixed(s: Seq<char>)
    requires
        is_trimmed(s),
    ensures
        trimmed(s) == s,
{
}

/// Trimming yields a text that neither begins nor ends with white space.
pub proof fn lemma_trimmed_is_trimmed(s: Seq<char>)
    ensures
        is_trimmed(trimmed(s)),
{
    lemma_leading_result(s);
    lemma_trailing_result(without_leading_space(s));
    let t = without_leading_space(s);
    let u = without_trailing_space(t);
    if u.len() > 0 {
        assert(u[0] == t[0]);
    }
}

/// What is left after the leading white space is a suffix of the text that
/// does not begin with white space.
pub proof fn lemma_leading_result(s: Seq<char>)
    ensures
        without_leading_space(s).len() <= s.len(),
        without_leading_space(s) == s.skip(s.len() - without_leading_space(s).len()),
        is_blank(s.take(s.len() - without_leading_space(s).len())),
        without_leading_space(s).len() > 0 ==> !is_whitespace(without_leading_space(s)[0]),
    decreases s.len(),
{
    if s.len() > 0 && is_whitespace(s[0]) {
        let rest = s.drop_first();
        lemma_leading_result(rest);
        let r = without_leading_space(rest);
        let a = rest.len() - r.len();
        assert(rest.skip(a) =~= s.skip(a + 1));
        assert forall|i: int| 0 <= i < a + 1 implies is_whitespace(#[trigger] s.take(a + 1)[i]) by {
            if i > 0 {
                assert(s.take(a + 1)[i] == rest.take(a)[i - 1]);
            }
        }
    } else {
        assert(s.skip(0) =~= s);
    }
}

/// What is left before the trailing white space is a prefix of the text that
/// does not end with white space.
pub proof fn lemma_trailing_result(s: Seq<char>)
    ensures
        without_trailing_space(s).len() <= s.len(),
        without_trailing_space(s) == s.take(without_trailing_space(s).len() as int),
        is_blank(s.skip(without_trailing_space(s).len() as int)),
        without_trailing_space(s).len() > 0 ==> !is_whitespace(without_trailing_space(s).last()),
    decreases s.len(),
{
    if s.len() > 0 && is_whitespace(s.last()) {
        let rest = s.drop_last();
        lemma_trailing_result(rest);
        let r = without_trailing_space(rest);
        let b = r.len() as int;
        assert(rest.take(b) =~= s.take(b));
        assert forall|i: int| 0 <= i < s.len() - b implies is_whitespace(#[trigger] s.skip(b)[i]) by {
            if i < rest.len() - b {
                assert(s.skip(b)[i] == rest.skip(b)[i]);
            }
        }
    } else {
        assert(s.take(s.len() as int) =~= s);
    }
}

/// White space put around a text does not change its trimming.
pub proof fn lemma_trimmed_ignores_padding(before: Seq<char>, s: Seq<char>, after: Seq<char>)
    requires
        is_blank(before),
        is_blank(after),
    ensures
        trimmed(before + s + after) == trimmed(s),
{
    let whole = before + s + after;
    lemma_leading_result(s);
    let t = without_leading_space(s);
    let a = s.len() - t.len();
    // The leading white space of the whole text.
    if t.len() == 0 {
        // `s` is blank, and so is the whole text.
        assert(s.take(a) =~= s);
        assert forall|i: int| 0 <= i < whole.len() implies is_whitespace(#[trigger] whole[i]) by {
            if i < before.len() {
                assert(whole[i] == before[i]);
            } else if i < before.len() + s.len() {
                assert(whole[i] == s[i - before.len()]);
            } else {
                assert(whole[i] == after[i - before.len() - s.len()]);
            }
        }
        assert(whole.take(whole.len() as int) =~= whole);
        lemma_leading_space(whole, whole.len() as int);
        assert(whole.skip(whole.len() as int) =~= Seq::<char>::empty());
        assert(t =~= Seq::<char>::empty());
    } else {
        let lead = before.len() + a;
        assert forall|i: int| 0 <= i < lead implies is_whitespace(#[trigger] whole.take(lead)[i]) by {
            if i < before.len() {
                assert(whole.take(lead)[i] == before[i]);
            } else {
                assert(whole.take(lead)[i] == s.take(a)[i - before.len()]);
            }
        }
        assert(whole[lead] == t[0]);
        lemma_leading_space(whole, lead);
        let w = whole.skip(lead);
        assert(w =~= t + after);
        lemma_trailing_result(t);
        let u = without_trailing_space(t);
        let b = u.len() as int;
        assert forall|i: int| 0 <= i < w.len() - b implies is_whitespace(#[trigger] w.skip(b)[i]) by {
            if i < t.len() - b {
                assert(w.skip(b)[i] == t.skip(b)[i]);
            } else {
                assert(w.skip(b)[i] == after[i - (t.len() - b)]);
            }
        }
        if b > 0 {
            assert(w[b - 1] == u.last());
        } else {
            // `t` begins with a character that is no white space, so it is not blank.
            assert(t.skip(0)[0] == t[0]);
        }
        lemma_trailing_space(w, b);
        assert(w.take(b) =~= t.take(b));
    }
}

/// Whether `c` is white space.
pub fn is_space(c: char) -> (b: bool)
    ensures
        b == is_whitespace(c),
{
    let n: u32 = c as u32;
    (0x09 <= n && n <= 0x0D) || n == 0x20 || n == 0x85 || n == 0xA0 || n == 0x1680 || (0x2000 <= n
        && n <= 0x200A) || n == 0x2028 || n == 0x2029 || n == 0x202F || n == 0x205F || n == 0x3000
}

/// The bounds of `s` without the white space at either end.
pub fn trim_bounds(s: &[char]) -> (r: (usize, usize))
    ensures
        r.0 <= r.1 <= s@.len(),
        s@.subrange(r.0 as int, r.1 as int) == trimmed(s@),
{
    let n = s.len();
    let mut a: usize = 0;
    while a < n && is_space(s[a])
        invariant
            a <= n == s@.len(),
            is_blank(s@.take(a as int)),
        decreases n - a,
    {
        a += 1;
        assert forall|i: int| 0 <= i < a implies is_whitespace(#[trigger] s@.take(a as int)[i]) by {
            if i < a - 1 {
                assert(s@.take(a as int)[i] == s@.take(a - 1)[i]);
            }
        }
    }
    let mut b: usize = n;
    while b > a && is_space(s[b - 1])
        invariant
            a <= b <= n == s@.len(),
            is_blank(s@.skip(b as int)),
        decreases b,
    {
        b -= 1;
        assert forall|i: int| 0 <= i < n - b implies is_whitespace(#[trigger] s@.skip(b as int)[i]) by {
            if i > 0 {
                assert(s@.skip(b as int)[i] == s@.skip(b + 1)[i - 1]);
            }
        }
    }
    proof {
        lemma_leading_space(s@, a as int);
        let t = s@.skip(a as int);
        assert(t.skip(b - a) =~= s@.skip(b as int));
        if b > a {
            assert(t[b - a - 1] == s@[b - 1]);
        }
        lemma_trailing_space(t, b - a);
        assert(t.take(b - a) =~= s@.subrange(a as int, b as int));
    }
    (a, b)
}

/// `s` without the white space at either end.
pub fn trim(s: &str) -> (r: String)
    ensures
        r@ == trimmed(s@),
{
    let chars = chars_of(s);
    let (a, b) = trim_bounds(chars.as_slice());
    string_of(slice_subrange(chars.as_slice(), a, b))
}

/// Where the first line of `t` ends: the place of its first line feed, or its
/// length where it holds none.
pub open spec fn line_end(t: Seq<char>) -> nat
    decreases t.len(),
{
    if t.len() == 0 || t[0] == '\n' {
        0
    } else {
        1 + line_end(t.drop_first())
    }
}

/// `line` without the carriage return that it ends with, if it ends with one.
pub open spec fn without_carriage_return(line: Seq<char>) -> Seq<char> {
    if line.len() > 0 && line.last() == '\r' {
        line.drop_last()
    } else {
        line
    }
}

/// The lines of `t`. A line ends with a line feed, or with a carriage return
/// and a line feed, neither of which belongs to the line; the last line may
/// end with the text, and is then taken as it stands.
pub open spec fn lines_of(t: Seq<char>) -> Seq<Seq<char>>
    decreases t.len(),
{
    let k = line_end(t);
    if t.len() == 0 {
        Seq::empty()
    } else if k >= t.len() {
        seq![t]
    } else {
        seq![without_carriage_return(t.take(k as int))] + lines_of(t.skip(k as int + 1))
    }
}

/// `lines` with a line feed between each two of them.
pub open spec fn joined(lines: Seq<Seq<char>>) -> Seq<char>
    decreases lines.len(),
{
    if lines.len() == 0 {
        Seq::empty()
    } else if lines.len() == 1 {
        lines[0]
    } else {
        joined(lines.drop_last()) + seq!['\n'] + lines.last()
    }
}

/// The first line of a text ends within the text, at a line feed if it ends
/// before the text does, and holds no line feed.
pub proof fn lemma_line_end(t: Seq<char>)
    ensures
        line_end(t) <= t.len(),
        line_end(t) < t.len() ==> t[line_end(t) as int] == '\n',
        forall|i: int| 0 <= i < line_end(t) ==> t[i] != '\n',
    decreases t.len(),
{
    if t.len() == 0 || t[0] == '\n' {
    } else {
        let rest = t.drop_first();
        lemma_line_end(rest);
        assert forall|i: int| 0 <= i < line_end(t) implies t[i] != '\n' by {
            if i > 0 {
                assert(t[i] == rest[i - 1]);
            }
        }
    }
}

/// The first place `k` at which `t` holds a line feed is where its first line ends.
pub proof fn lemma_line_end_at(t: Seq<char>, k: int)
    requires
        0 <= k <= t.len(),
        forall|i: int| 0 <= i < k ==> t[i] != '\n',
        k < t.len() ==> t[k] == '\n',
    ensures
        line_end(t) == k,
{
    lemma_line_end(t);
    let e = line_end(t) as int;
    if e < k {
        assert(t[e] == '\n');
    } else if k < e {
        assert(t[k] != '\n');
    }
}

/// The lines of `text`.
pub fn split_lines(text: &str) -> (lines: Vec<String>)
    ensures
        lines.deep_view() == lines_of(text@),
{
    let chars = chars_of(text);
    let t = chars.as_slice();
    let n = t.len();
    let mut lines: Vec<String> = Vec::new();
    let mut i: usize = 0;
    assert(t@.skip(0) =~= t@);
    assert(lines.deep_view() =~= Seq::<Seq<char>>::empty());
    while i < n
        invariant
            i <= n == t@.len(),
            t@ == text@,
            lines.deep_view() + lines_of(t@.skip(i as int)) == lines_of(t@),
        decreases n - i,
    {
        let ghost rest = t@.skip(i as int);
        let ghost before = lines.deep_view();
        let mut j: usize = i;
        while j < n && t[j] != '\n'
            invariant
                i <= j <= n == t@.len(),
                forall|k: int| i <= k < j ==> t@[k] != '\n',
            decreases n - j,
        {
            j += 1;
        }
        proof {
            lemma_line_end_at(rest, j - i);
        }
        if j == n {
            let line = string_of(slice_subrange(t, i, n));
            lines.push(line);
            proof {
                assert(t@.subrange(i as int, n as int) =~= rest);
                assert(lines.deep_view() =~= before + seq![rest]);
                assert(t@.skip(n as int) =~= Seq::<char>::empty());
                assert(before + seq![rest] + lines_of(Seq::<char>::empty()) =~= before + lines_of(
                    rest,
                ));
            }
            i = n;
        } else {
            let end = if j > i && t[j - 1] == '\r' {
                j - 1
            } else {
                j
            };
            let line = string_of(slice_subrange(t, i, end));
            lines.push(line);
            proof {
                let raw = rest.take(j - i);
                assert(raw =~= t@.subrange(i as int, j as int));
                let stripped = without_carriage_return(raw);
                assert(stripped =~= t@.subrange(i as int, end as int));
                assert(lines.deep_view() =~= before + seq![stripped]);
                assert(rest.skip(j - i + 1) =~= t@.skip(j + 1));
                assert(before + seq![stripped] + lines_of(t@.skip(j + 1)) =~= before + lines_of(
                    rest,
                ));
            }
            i = j + 1;
        }
    }
    assert(lines_of(t@.skip(n as int)) =~= Seq::<Seq<char>>::empty());
    lines
}

/// `lines` with a line feed between each two of them.
pub fn join_lines(lines: &Vec<String>) -> (r: Vec<char>)
    ensures
        r@ == joined(lines.deep_view()),
{
    let mut out: Vec<char> = Vec::new();
    let mut i: usize = 0;
    let ghost all = lines.deep_view();
    assert(all.take(0) =~= Seq::<Seq<char>>::empty());
    while i < lines.len()
        invariant
            i <= lines.len(),
            all == lines.deep_view(),
            out@ == joined(all.take(i as int)),
        decreases lines.len() - i,
    {
        if i > 0 {
            out.push('\n');
        }
        let mut line = chars_of(lines[i].as_str());
        out.append(&mut line);
        proof {
            let upto = all.take(i + 1);
            assert(upto.drop_last() =~= all.take(i as int));
            assert(upto.last() == lines[i as int]@);
        }
        i += 1;
    }
    assert(all.take(i as int) =~= all);
    out
}

} // verus!
