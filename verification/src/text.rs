//! Character-level helpers shared by the modules of the crate.

use vstd::prelude::*;

verus! {

/// `suffix` is a suffix of `s`.
pub open spec fn seq_ends_with(s: Seq<char>, suffix: Seq<char>) -> bool {
    suffix.len() <= s.len() && s.subrange(s.len() - suffix.len(), s.len() as int) == suffix
}

/// `pattern` occurs in `s` starting at index `i`.
pub open spec fn occurs_at(s: Seq<char>, pattern: Seq<char>, i: int) -> bool {
    0 <= i && i + pattern.len() <= s.len() && s.subrange(i, i + pattern.len()) == pattern
}

/// The parts joined together, with `sep` between each two neighbours.
pub open spec fn join_with(parts: Seq<Seq<char>>, sep: Seq<char>) -> Seq<char>
    decreases parts.len(),
{
    if parts.len() == 0 {
        Seq::empty()
    } else if parts.len() == 1 {
        parts[0]
    } else {
        join_with(parts.drop_last(), sep) + sep + parts.last()
    }
}

/// The character views of a sequence of strings.
pub open spec fn string_views(v: Seq<String>) -> Seq<Seq<char>> {
    v.map_values(|s: String| s@)
}

/// Unicode `White_Space`: the characters that `char::is_whitespace` accepts.
pub open spec fn is_white_space(c: char) -> bool {
    ||| '\u{9}' <= c <= '\u{d}'
    ||| c == ' '
    ||| c == '\u{85}'
    ||| c == '\u{a0}'
    ||| c == '\u{1680}'
    ||| '\u{2000}' <= c <= '\u{200a}'
    ||| c == '\u{2028}'
    ||| c == '\u{2029}'
    ||| c == '\u{202f}'
    ||| c == '\u{205f}'
    ||| c == '\u{3000}'
}

/// `s` without its leading white space.
pub open spec fn trim_start(s: Seq<char>) -> Seq<char>
    decreases s.len(),
{
    if s.len() > 0 && is_white_space(s[0]) {
        trim_start(s.drop_first())
    } else {
        s
    }
}

/// `s` without its trailing white space.
pub open spec fn trim_end(s: Seq<char>) -> Seq<char>
    decreases s.len(),
{
    if s.len() > 0 && is_white_space(s.last()) {
        trim_end(s.drop_last())
    } else {
        s
    }
}

/// `s` without leading and trailing white space.
pub open spec fn trimmed(s: Seq<char>) -> Seq<char> {
    trim_end(trim_start(s))
}

/// Appends one character to a string: `String::push`.
#[verifier::external_body]
fn push_char(s: &mut String, c: char)
    ensures
        final(s)@ == old(s)@.push(c),
{
    s.push(c);
}

/// The characters of a string slice, in order.
pub fn chars_of(s: &str) -> (v: Vec<char>)
    ensures
        v@ == s@,
{
    let mut v: Vec<char> = Vec::new();
    for c in it: s.chars()
        invariant
            v@ == it.seq().take(it.index() as int),
            it.seq() == s@,
    {
        v.push(c);
    }
    v
}

/// Whether two string slices hold the same characters.
pub fn str_equals(a: &str, b: &str) -> (r: bool)
    ensures
        r == (a@ == b@),
{
    a.to_owned() == b.to_owned()
}

/// Whether `s` ends with `suffix`.
pub fn ends_with(s: &str, suffix: &str) -> (r: bool)
    ensures
        r == seq_ends_with(s@, suffix@),
{
    let sc = chars_of(s);
    let xc = chars_of(suffix);
    let n = sc.len();
    let m = xc.len();
    if m > n {
        return false;
    }
    let mut k: usize = 0;
    while k < m
        invariant
            n == sc@.len(),
            m == xc@.len(),
            sc@ == s@,
            xc@ == suffix@,
            m <= n,
            k <= m,
            forall|t: int| 0 <= t < k ==> sc@[n - m + t] == xc@[t],
        decreases m - k,
    {
        if sc[n - m + k] != xc[k] {
            assert(sc@.subrange(n - m, n as int)[k as int] != xc@[k as int]);
            return false;
        }
        k = k + 1;
    }
    assert(sc@.subrange(n - m, n as int) == xc@);
    true
}

/// The string made of `chars[from..to]`.
pub fn string_of_range(chars: &Vec<char>, from: usize, to: usize) -> (r: String)
    requires
        from <= to <= chars.len(),
    ensures
        r@ == chars@.subrange(from as int, to as int),
{
    let mut r = String::new();
    let mut i = from;
    while i < to
        invariant
            from <= i <= to <= chars.len(),
            r@ == chars@.subrange(from as int, i as int),
        decreases to - i,
    {
        push_char(&mut r, chars[i]);
        assert(chars@.subrange(from as int, i + 1) == chars@.subrange(from as int, i as int).push(
            chars@[i as int],
        ));
        i = i + 1;
    }
    r
}

/// The strings of `parts` joined with `sep` between neighbours.
pub fn join(parts: &Vec<String>, sep: &str) -> (r: String)
    ensures
        r@ == join_with(string_views(parts@), sep@),
{
    let mut r = String::new();
    let ghost views = string_views(parts@);
    let mut i: usize = 0;
    while i < parts.len()
        invariant
            i <= parts.len(),
            views == string_views(parts@),
            r@ == join_with(views.take(i as int), sep@),
        decreases parts.len() - i,
    {
        assert(views.take(i + 1).drop_last() == views.take(i as int));
        if i > 0 {
            r.append(sep);
        }
        r.append(parts[i].as_str());
        i = i + 1;
    }
    assert(views.take(parts.len() as int) == views);
    r
}

/// Whether `c` is white space in the sense of `is_white_space`.
pub fn is_white_space_char(c: char) -> (b: bool)
    ensures
        b == is_white_space(c),
{
    ('\u{9}' <= c && c <= '\u{d}') || c == ' ' || c == '\u{85}' || c == '\u{a0}' || c == '\u{1680}'
        || ('\u{2000}' <= c && c <= '\u{200a}') || c == '\u{2028}' || c == '\u{2029}' || c
        == '\u{202f}' || c == '\u{205f}' || c == '\u{3000}'
}

proof fn lemma_trim_start_skip(s: Seq<char>, i: int)
    requires
        0 <= i <= s.len(),
        forall|k: int| 0 <= k < i ==> is_white_space(#[trigger] s[k]),
    ensures
        trim_start(s) == trim_start(s.subrange(i, s.len() as int)),
    decreases i,
{
    if i > 0 {
        assert(s.drop_first().subrange(i - 1, s.drop_first().len() as int) == s.subrange(
            i,
            s.len() as int,
        ));
        lemma_trim_start_skip(s.drop_first(), i - 1);
    } else {
        assert(s.subrange(0, s.len() as int) == s);
    }
}

proof fn lemma_trim_end_skip(s: Seq<char>, j: int)
    requires
        0 <= j <= s.len(),
        forall|k: int| j <= k < s.len() ==> is_white_space(#[trigger] s[k]),
    ensures
        trim_end(s) == trim_end(s.subrange(0, j)),
    decreases s.len() - j,
{
    if j < s.len() {
        assert(s.drop_last().subrange(0, j) == s.subrange(0, j));
        lemma_trim_end_skip(s.drop_last(), j);
    } else {
        assert(s.subrange(0, j) == s);
    }
}

/// Trimming keeps a leading part `m` of `s` that neither starts nor ends
/// with white space.
pub proof fn lemma_trimmed_keeps_prefix(s: Seq<char>, m: Seq<char>)
    requires
        m.len() > 0,
        m.len() <= s.len(),
        s.take(m.len() as int) == m,
        !is_white_space(m[0]),
        !is_white_space(m.last()),
    ensures
        trimmed(s).len() >= m.len(),
        trimmed(s).take(m.len() as int) == m,
{
    assert(s[0] == m[0]);
    assert(trim_start(s) == s);
    lemma_trim_end_keeps_prefix(s, m);
}

proof fn lemma_trim_end_keeps_prefix(s: Seq<char>, m: Seq<char>)
    requires
        m.len() > 0,
        m.len() <= s.len(),
        s.take(m.len() as int) == m,
        !is_white_space(m.last()),
    ensures
        trim_end(s).len() >= m.len(),
        trim_end(s).take(m.len() as int) == m,
    decreases s.len(),
{
    if s.len() == m.len() {
        assert(s == m);
    } else if is_white_space(s.last()) {
        assert(s.drop_last().take(m.len() as int) == m);
        lemma_trim_end_keeps_prefix(s.drop_last(), m);
    }
}

/// `s` with its leading and trailing white space removed: `str::trim`.
pub fn trim(s: &str) -> (r: String)
    ensures
        r@ == trimmed(s@),
{
    let chars = chars_of(s);
    let n = chars.len();
    let mut i: usize = 0;
    while i < n && is_white_space_char(chars[i])
        invariant
            i <= n == chars@.len(),
            forall|k: int| 0 <= k < i ==> is_white_space(#[trigger] chars@[k]),
        decreases n - i,
    {
        i = i + 1;
    }
    let mut j: usize = n;
    while j > i && is_white_space_char(chars[j - 1])
        invariant
            i <= j <= n == chars@.len(),
            forall|k: int| j <= k < n ==> is_white_space(#[trigger] chars@[k]),
        decreases j,
    {
        j = j - 1;
    }
    proof {
        let t = chars@.subrange(i as int, n as int);
        lemma_trim_start_skip(chars@, i as int);
        assert(trim_start(t) == t);
        assert forall|k: int| j - i <= k < t.len() implies is_white_space(#[trigger] t[k]) by {
            assert(t[k] == chars@[k + i]);
        }
        lemma_trim_end_skip(t, j - i);
        assert(t.subrange(0, j - i) == chars@.subrange(i as int, j as int));
    }
    string_of_range(&chars, i, j)
}

/// The first index at which `pattern` occurs in `s`.
pub fn find_first(s: &Vec<char>, pattern: &Vec<char>) -> (r: Option<usize>)
    ensures
        match r {
            Some(i) => occurs_at(s@, pattern@, i as int) && forall|k: int|
                0 <= k < i ==> !occurs_at(s@, pattern@, k),
            None => forall|k: int| !occurs_at(s@, pattern@, k),
        },
{
    let n = s.len();
    let m = pattern.len();
    if m > n {
        return None;
    }
    let mut i: usize = 0;
    while i <= n - m
        invariant
            n == s@.len(),
            m == pattern@.len(),
            m <= n,
            i <= n - m + 1,
            forall|k: int| 0 <= k < i ==> !occurs_at(s@, pattern@, k),
        decreases n - i,
    {
        let mut j: usize = 0;
        while j < m && s[i + j] == pattern[j]
            invariant
                n == s@.len(),
                m == pattern@.len(),
                i + m <= n,
                j <= m,
                forall|k: int| 0 <= k < j ==> s@[i + k] == pattern@[k],
            decreases m - j,
        {
            j = j + 1;
        }
        if j == m {
            assert(s@.subrange(i as int, i + m) == pattern@);
            return Some(i);
        }
        assert(s@.subrange(i as int, i + m)[j as int] != pattern@[j as int]);
        i = i + 1;
    }
    None
}

/// The code points of the Unicode `White_Space` property, by number:
/// U+0009 to U+000D, U+0020, U+0085, U+00A0, U+1680, U+2000 to U+200A,
/// U+2028, U+2029, U+202F, U+205F and U+3000.
pub open spec fn white_space_code_point(n: int) -> bool {
    ||| 9 <= n <= 13
    ||| n == 32
    ||| n == 0x85
    ||| n == 0xa0
    ||| n == 0x1680
    ||| 0x2000 <= n <= 0x200a
    ||| n == 0x2028
    ||| n == 0x2029
    ||| n == 0x202f
    ||| n == 0x205f
    ||| n == 0x3000
}

proof fn lemma_white_space_by_code_point(c: char)
    ensures
        is_white_space(c) <==> white_space_code_point(c as int),
{
}

proof fn lemma_trim_start_push(s: Seq<char>, c: char)
    requires
        is_white_space(c),
    ensures
        trim_start(s + seq![c]) == if trim_start(s).len() == 0 {
            Seq::<char>::empty()
        } else {
            trim_start(s) + seq![c]
        },
    decreases s.len(),
{
    if s.len() == 0 {
        assert(seq![c].drop_first() == Seq::<char>::empty());
        assert(s + seq![c] == seq![c]);
        assert(trim_start(Seq::<char>::empty()) == Seq::<char>::empty());
        assert(trim_start(seq![c]) == trim_start(Seq::<char>::empty()));
    } else if is_white_space(s[0]) {
        assert((s + seq![c]).drop_first() == s.drop_first() + seq![c]);
        lemma_trim_start_push(s.drop_first(), c);
    } else {
        assert((s + seq![c])[0] == s[0]);
        assert(trim_start(s) == s);
        assert(trim_start(s + seq![c]) == s + seq![c]);
    }
}

/// Trimming removes nothing but white space: a text whose first and last
/// characters are not Unicode `White_Space` code points is its own trimmed
/// form, whatever else it holds (so `"x."` stays `"x."`).
pub proof fn lemma_trim_keeps_other_ends(s: Seq<char>)
    requires
        s.len() > 0,
        !white_space_code_point(s[0] as int),
        !white_space_code_point(s.last() as int),
    ensures
        trimmed(s) == s,
{
    lemma_white_space_by_code_point(s[0]);
    lemma_white_space_by_code_point(s.last());
    assert(trim_start(s) == s);
}

/// Trimming removes every Unicode `White_Space` code point at either end: a
/// white-space character put before or after a text changes nothing of its
/// trimmed form.
pub proof fn lemma_trim_drops_white_space_ends(s: Seq<char>, c: char)
    requires
        white_space_code_point(c as int),
    ensures
        trimmed(seq![c] + s) == trimmed(s),
        trimmed(s + seq![c]) == trimmed(s),
{
    lemma_white_space_by_code_point(c);
    assert((seq![c] + s).drop_first() == s);
    assert(trim_start(seq![c] + s) == trim_start(s));
    lemma_trim_start_push(s, c);
    let t = trim_start(s);
    if t.len() > 0 {
        assert((t + seq![c]).drop_last() == t);
    }
}

/// Trimming the end of `s` cuts it at some `j`: everything from `j` on is
/// Unicode `White_Space`, and what is kept does not end with it.
pub proof fn lemma_trim_end_cut(s: Seq<char>) -> (j: int)
    ensures
        0 <= j <= s.len(),
        trim_end(s) == s.take(j),
        forall|k: int| j <= k < s.len() ==> white_space_code_point(#[trigger] s[k] as int),
        j > 0 ==> !white_space_code_point(s[j - 1] as int),
    decreases s.len(),
{
    if s.len() > 0 && is_white_space(s.last()) {
        let j = lemma_trim_end_cut(s.drop_last());
        assert(s.drop_last().take(j) == s.take(j));
        assert forall|k: int| j <= k < s.len() implies white_space_code_point(
            #[trigger] s[k] as int,
        ) by {
            if k < s.len() - 1 {
                assert(s.drop_last()[k] == s[k]);
            } else {
                lemma_white_space_by_code_point(s.last());
            }
        }
        if j > 0 {
            assert(s.drop_last()[j - 1] == s[j - 1]);
        }
        j
    } else {
        assert(s.take(s.len() as int) == s);
        if s.len() > 0 {
            lemma_white_space_by_code_point(s.last());
        }
        s.len() as int
    }
}

} // verus!
