//! The sign-in token, as the setup command prints it.

use vstd::prelude::*;
use crate::agent::{lossy_text, utf8_lossy};
use crate::text::{
    chars_of, find_first, lemma_trim_end_cut, lemma_trimmed_keeps_prefix, occurs_at,
    string_of_range, trim, trim_start, trimmed, white_space_code_point,
};

verus! {

/// How every sign-in token begins.
pub const TOKEN_MARKER: &'static str = "sk-ant-oat01-";

/// The error of a setup run that ended without printing a token.
pub const NO_TOKEN_ERROR: &'static str = "processo encerrado sem token";

/// The first index at which `pattern` occurs in `s` (meaningful when it does).
pub open spec fn first_occurrence(s: Seq<char>, pattern: Seq<char>) -> int {
    choose|i: int| occurs_at(s, pattern, i) && forall|k: int| 0 <= k < i ==> !occurs_at(s, pattern, k)
}

/// The token on the output line `row`: from the first marker on, without
/// surrounding white space; none when the marker does not occur.
pub open spec fn token_text(row: Seq<char>) -> Option<Seq<char>> {
    if exists|i: int| occurs_at(row, TOKEN_MARKER@, i) {
        Some(trimmed(row.skip(first_occurrence(row, TOKEN_MARKER@))))
    } else {
        None
    }
}

proof fn lemma_first_occurrence(s: Seq<char>, pattern: Seq<char>, j: int)
    requires
        occurs_at(s, pattern, j),
    ensures
        occurs_at(s, pattern, first_occurrence(s, pattern)),
        forall|k: int| 0 <= k < first_occurrence(s, pattern) ==> !occurs_at(s, pattern, k),
    decreases j,
{
    if exists|k: int| 0 <= k < j && occurs_at(s, pattern, k) {
        let k = choose|k: int| 0 <= k < j && occurs_at(s, pattern, k);
        lemma_first_occurrence(s, pattern, k);
    } else {
        assert(occurs_at(s, pattern, j) && forall|k: int| 0 <= k < j ==> !occurs_at(s, pattern, k));
    }
}

/// Every token found begins with the marker: trimming never eats into it.
pub proof fn lemma_token_starts_with_marker(row: Seq<char>)
    requires
        token_text(row) is Some,
    ensures
        token_text(row)->Some_0.len() >= TOKEN_MARKER@.len(),
        token_text(row)->Some_0.take(TOKEN_MARKER@.len() as int) == TOKEN_MARKER@,
{
    reveal_strlit("sk-ant-oat01-");
    let j = choose|j: int| occurs_at(row, TOKEN_MARKER@, j);
    lemma_first_occurrence(row, TOKEN_MARKER@, j);
    let i = first_occurrence(row, TOKEN_MARKER@);
    let s = row.skip(i);
    assert(s.take(TOKEN_MARKER@.len() as int) == row.subrange(i, i + TOKEN_MARKER@.len()));
    lemma_trimmed_keeps_prefix(s, TOKEN_MARKER@);
}

/// A token is the output line cut at the first `sk-ant-oat01-` and, at the
/// end, cut only before Unicode `White_Space`: nothing before the marker and
/// nothing but white space after the token is dropped.
pub proof fn lemma_token_is_cut_from_row(row: Seq<char>)
    requires
        token_text(row) is Some,
    ensures
        exists|i: int, j: int|
            #![trigger row.subrange(i, j)]
            {
                let marker = seq!['s', 'k', '-', 'a', 'n', 't', '-', 'o', 'a', 't', '0', '1', '-'];
                &&& 0 <= i
                &&& i + marker.len() <= j <= row.len()
                &&& row.subrange(i, i + marker.len()) == marker
                &&& forall|k: int|
                    0 <= k < i ==> #[trigger] row.subrange(k, k + marker.len()) != marker
                &&& token_text(row)->Some_0 == row.subrange(i, j)
                &&& forall|k: int| j <= k < row.len() ==> white_space_code_point(#[trigger] row[k] as int)
            },
{
    reveal_strlit("sk-ant-oat01-");
    let marker = seq!['s', 'k', '-', 'a', 'n', 't', '-', 'o', 'a', 't', '0', '1', '-'];
    assert(TOKEN_MARKER@ == marker);
    let w = choose|j: int| occurs_at(row, TOKEN_MARKER@, j);
    lemma_first_occurrence(row, TOKEN_MARKER@, w);
    let i = first_occurrence(row, TOKEN_MARKER@);
    let s = row.skip(i);
    assert(s.take(13) == row.subrange(i, i + 13));
    assert(s[0] == 's');
    assert(trim_start(s) == s);
    lemma_trimmed_keeps_prefix(s, TOKEN_MARKER@);
    let c = lemma_trim_end_cut(s);
    let j = i + c;
    assert(s.take(c) == row.subrange(i, j));
    assert forall|k: int| j <= k < row.len() implies white_space_code_point(#[trigger] row[k] as int) by {
        assert(s[k - i] == row[k]);
    }
    assert forall|k: int| 0 <= k < i implies #[trigger] row.subrange(k, k + marker.len()) != marker by {
        assert(!occurs_at(row, TOKEN_MARKER@, k));
    }
    assert(token_text(row)->Some_0 == row.subrange(i, j));
}

/// The token printed on the output line `row`, if any.
pub fn token_in_output(row: &str) -> (r: Option<String>)
    ensures
        match r {
            Some(t) => token_text(row@) == Some(t@),
            None => token_text(row@) is None,
        },
{
    let chars = chars_of(row);
    let marker = chars_of(TOKEN_MARKER);
    match find_first(&chars, &marker) {
        Some(start) => {
            proof {
                let i = first_occurrence(row@, TOKEN_MARKER@);
                assert(occurs_at(row@, TOKEN_MARKER@, start as int));
                assert(occurs_at(row@, TOKEN_MARKER@, i) && forall|k: int|
                    0 <= k < i ==> !occurs_at(row@, TOKEN_MARKER@, k));
                if i < start {
                } else if i > start {
                }
                assert(i == start);
                assert(chars@.subrange(start as int, chars@.len() as int) == row@.skip(i));
            }
            let rest = string_of_range(&chars, start, chars.len());
            Some(trim(rest.as_str()))
        },
        None => None,
    }
}

/// The token printed in a chunk of the setup command's standard output.
pub fn token_in_stdout(bytes: &[u8]) -> (r: Option<String>)
    ensures
        match r {
            Some(t) => token_text(lossy_text(bytes@)) == Some(t@),
            None => token_text(lossy_text(bytes@)) is None,
        },
{
    let row = utf8_lossy(bytes);
    token_in_output(row.as_str())
}

} // verus!
