//! Proposals that the agent leaves for review: which files are proposals and
//! in which order they are listed.

use vstd::prelude::*;
use crate::mirror::is_note_name;
use crate::text::{ends_with, seq_ends_with};

verus! {

broadcast use vstd::seq_lib::group_seq_properties;

/// One pending proposal: its path relative to the output directory, whether
/// a note of that path already exists in the vault (so that accepting it
/// replaces the note), and when it was last modified (seconds since the Unix
/// epoch).
pub struct ProposalSummary {
    pub path: String,
    pub is_substitution: bool,
    pub modified: u64,
}

/// A proposal's text, beside the text of the note it would replace, if any.
pub struct ProposalDetail {
    pub proposal: String,
    pub original: Option<String>,
}

/// What a walk for markdown files does with one directory entry.
#[derive(Clone, Copy, PartialEq, Eq, Structural, Debug)]
pub enum WalkStep {
    /// Walk into the directory.
    Descend,
    /// The entry is a markdown file: take it.
    Take,
    /// Pass over the entry.
    Skip,
}

/// The file name `name` has the extension `md`: it ends in `.md` and has
/// something before that dot.
pub open spec fn has_md_extension_spec(name: Seq<char>) -> bool {
    name.len() >= 4 && seq_ends_with(name, ".md"@)
}

/// A file name has the extension `md` exactly when it is a non-empty stem,
/// whatever its characters, followed by `.md`.
pub proof fn lemma_md_extension_is_stem_and_suffix(name: Seq<char>)
    ensures
        has_md_extension_spec(name) <==> (name.len() >= 4 && name.subrange(
            name.len() - 3,
            name.len() as int,
        ) == seq!['.', 'm', 'd']),
{
    reveal_strlit(".md");
    assert(".md"@ == seq!['.', 'm', 'd']);
}

/// Every non-empty stem followed by `.md` names a markdown file.
pub proof fn lemma_any_stem_with_md(stem: Seq<char>)
    requires
        stem.len() >= 1,
    ensures
        has_md_extension_spec(stem + seq!['.', 'm', 'd']),
        markdown_step_for(false, stem + seq!['.', 'm', 'd']) == WalkStep::Take,
        forall|name: Seq<char>| #[trigger] markdown_step_for(true, name) == WalkStep::Descend,
{
    let name = stem + seq!['.', 'm', 'd'];
    assert(name.subrange(name.len() - 3, name.len() as int) == seq!['.', 'm', 'd']);
    lemma_md_extension_is_stem_and_suffix(name);
}

/// The step of a markdown walk for an entry named `name`.
pub open spec fn markdown_step_for(is_dir: bool, name: Seq<char>) -> WalkStep {
    if is_dir {
        WalkStep::Descend
    } else if has_md_extension_spec(name) {
        WalkStep::Take
    } else {
        WalkStep::Skip
    }
}

/// Whether the file name `name` has the extension `md`.
pub fn has_md_extension(name: &str) -> (b: bool)
    ensures
        b == has_md_extension_spec(name@),
{
    proof {
        reveal_strlit(".md");
    }
    ends_with(name, ".md") && name.unicode_len() >= 4
}

/// Every file a markdown walk takes also counts as a note when the vault is
/// mirrored.
pub proof fn lemma_markdown_file_is_note(name: Seq<char>)
    requires
        has_md_extension_spec(name),
    ensures
        is_note_name(name),
{
}

/// What a markdown walk does with the entry `name`, a directory or not.
pub fn markdown_step(is_dir: bool, name: &str) -> (step: WalkStep)
    ensures
        step == markdown_step_for(is_dir, name@),
{
    if is_dir {
        WalkStep::Descend
    } else if has_md_extension(name) {
        WalkStep::Take
    } else {
        WalkStep::Skip
    }
}

/// The proposals modified at `modified`.
pub open spec fn modified_at(modified: u64) -> spec_fn(ProposalSummary) -> bool {
    |p: ProposalSummary| p.modified == modified
}

/// No proposal comes before one modified later.
pub open spec fn newest_first_order(v: Seq<ProposalSummary>) -> bool {
    forall|a: int, b: int| 0 <= a < b < v.len() ==> v[a].modified >= v[b].modified
}

/// `out` holds the proposals of `input`, newest first, and proposals with
/// the same time keep their order: the two agree on the proposals of every
/// time, in order.
pub open spec fn is_newest_first_of(out: Seq<ProposalSummary>, input: Seq<ProposalSummary>) -> bool {
    &&& newest_first_order(out)
    &&& forall|t: u64| #[trigger] out.filter(modified_at(t)) == input.filter(modified_at(t))
}

proof fn lemma_filter_push(s: Seq<ProposalSummary>, x: ProposalSummary, t: u64)
    ensures
        s.push(x).filter(modified_at(t)) == if x.modified == t {
            s.filter(modified_at(t)).push(x)
        } else {
            s.filter(modified_at(t))
        },
{
    reveal(Seq::filter);
    assert(s.push(x).drop_last() == s);
}

proof fn lemma_filter_none(s: Seq<ProposalSummary>, t: u64)
    requires
        forall|k: int| 0 <= k < s.len() ==> (#[trigger] s[k]).modified != t,
    ensures
        s.filter(modified_at(t)) == Seq::<ProposalSummary>::empty(),
    decreases s.len(),
{
    reveal(Seq::filter);
    if s.len() > 0 {
        lemma_filter_none(s.drop_last(), t);
    }
}

proof fn lemma_filter_member(s: Seq<ProposalSummary>, t: u64)
    requires
        s.filter(modified_at(t)).len() > 0,
    ensures
        exists|k: int| 0 <= k < s.len() && (#[trigger] s[k]).modified == t,
    decreases s.len(),
{
    reveal(Seq::filter);
    if s.len() > 0 && s.last().modified != t {
        lemma_filter_member(s.drop_last(), t);
        let k = choose|k: int| 0 <= k < s.drop_last().len() && (#[trigger] s.drop_last()[k]).modified
            == t;
        assert(s[k] == s.drop_last()[k]);
    } else if s.len() > 0 {
        assert(s[s.len() - 1].modified == t);
    }
}

/// The newest-first order with stable ties leaves no choice: two lists in
/// that order that agree on the proposals of every time are the same list.
pub proof fn lemma_newest_first_unique(a: Seq<ProposalSummary>, b: Seq<ProposalSummary>)
    requires
        newest_first_order(a),
        newest_first_order(b),
        forall|t: u64| #[trigger] a.filter(modified_at(t)) == b.filter(modified_at(t)),
    ensures
        a == b,
    decreases a.len() + b.len(),
{
    if a.len() == 0 || b.len() == 0 {
        if a.len() > 0 {
            lemma_filter_push(a.drop_last(), a.last(), a.last().modified);
            assert(a.drop_last().push(a.last()) == a);
            assert(b.filter(modified_at(a.last().modified)).len() > 0);
            reveal(Seq::filter);
        } else if b.len() > 0 {
            lemma_filter_push(b.drop_last(), b.last(), b.last().modified);
            assert(b.drop_last().push(b.last()) == b);
            assert(a.filter(modified_at(b.last().modified)).len() > 0);
            reveal(Seq::filter);
        }
    } else {
        let x = a.last();
        let y = b.last();
        assert(a.drop_last().push(x) == a);
        assert(b.drop_last().push(y) == b);
        lemma_filter_push(a.drop_last(), x, x.modified);
        lemma_filter_push(b.drop_last(), y, y.modified);
        lemma_filter_push(a.drop_last(), x, y.modified);
        lemma_filter_push(b.drop_last(), y, x.modified);
        if x.modified < y.modified {
            lemma_filter_member(b, x.modified);
            let k = choose|k: int| 0 <= k < b.len() && (#[trigger] b[k]).modified == x.modified;
            assert(b[k].modified >= b[b.len() - 1].modified);
        } else if y.modified < x.modified {
            lemma_filter_member(a, y.modified);
            let k = choose|k: int| 0 <= k < a.len() && (#[trigger] a[k]).modified == y.modified;
            assert(a[k].modified >= a[a.len() - 1].modified);
        }
        assert(x.modified == y.modified);
        let fa = a.filter(modified_at(x.modified));
        assert(fa.last() == x);
        assert(fa.last() == y);
        assert forall|t: u64| #[trigger] a.drop_last().filter(modified_at(t)) == b.drop_last().filter(
            modified_at(t),
        ) by {
            lemma_filter_push(a.drop_last(), x, t);
            lemma_filter_push(b.drop_last(), y, t);
            if x.modified == t {
                assert(a.filter(modified_at(t)).drop_last() == a.drop_last().filter(modified_at(t)));
                assert(b.filter(modified_at(t)).drop_last() == b.drop_last().filter(modified_at(t)));
            }
        }
        lemma_newest_first_unique(a.drop_last(), b.drop_last());
    }
}

/// A newest-first listing holds the same proposals as its input, no later
/// proposal comes after an earlier one, and of two proposals of the same time
/// neither is lost.
pub proof fn lemma_newest_first_keeps_everything(out: Seq<ProposalSummary>, input: Seq<
    ProposalSummary,
>)
    requires
        is_newest_first_of(out, input),
    ensures
        forall|a: int, b: int| 0 <= a < b < out.len() ==> out[a].modified >= out[b].modified,
        forall|i: int| 0 <= i < input.len() ==> out.contains(#[trigger] input[i]),
        forall|i: int| 0 <= i < out.len() ==> input.contains(#[trigger] out[i]),
{
    assert forall|i: int| 0 <= i < input.len() implies out.contains(#[trigger] input[i]) by {
        let t = input[i].modified;
        input.lemma_filter_contains(modified_at(t), i);
        assert(out.filter(modified_at(t)) == input.filter(modified_at(t)));
        out.lemma_filter_contains_rev(modified_at(t), input[i]);
    }
    assert forall|i: int| 0 <= i < out.len() implies input.contains(#[trigger] out[i]) by {
        let t = out[i].modified;
        out.lemma_filter_contains(modified_at(t), i);
        assert(out.filter(modified_at(t)) == input.filter(modified_at(t)));
        input.lemma_filter_contains_rev(modified_at(t), out[i]);
    }
}

/// Listing newest first is idempotent: a list already in that order is its
/// own result.
pub proof fn lemma_newest_first_idempotent(out: Seq<ProposalSummary>, input: Seq<ProposalSummary>)
    requires
        is_newest_first_of(out, input),
    ensures
        is_newest_first_of(out, out),
        forall|again: Seq<ProposalSummary>| #[trigger]
            is_newest_first_of(again, out) ==> again == out,
{
    assert forall|again: Seq<ProposalSummary>| #[trigger]
        is_newest_first_of(again, out) implies again == out by {
        lemma_newest_first_unique(again, out);
    }
}

/// The proposals newest first; proposals of the same time keep their order.
pub fn newest_first(proposals: Vec<ProposalSummary>) -> (out: Vec<ProposalSummary>)
    ensures
        out@.len() == proposals@.len(),
        is_newest_first_of(out@, proposals@),
{
    let ghost input = proposals@;
    let mut rest = proposals;
    let mut out: Vec<ProposalSummary> = Vec::new();
    while rest.len() > 0
        invariant
            out@.len() + rest@.len() == input.len(),
            rest@ == input.skip(out@.len() as int),
            is_newest_first_of(out@, input.take(out@.len() as int)),
        decreases rest.len(),
    {
        let ghost i = out@.len() as int;
        let ghost r = out@;
        let x = rest.remove(0);
        assert(x == input[i]);
        assert(rest@ == input.skip(i + 1));
        let mut j: usize = 0;
        while j < out.len() && out[j].modified >= x.modified
            invariant
                out@ == r,
                j <= out@.len(),
                forall|k: int| 0 <= k < j ==> (#[trigger] out@[k]).modified >= x.modified,
            decreases out.len() - j,
        {
            j = j + 1;
        }
        proof {
            let a = r.subrange(0, j as int);
            let b = r.subrange(j as int, r.len() as int);
            assert(r == a + b);
            assert forall|k: int| 0 <= k < b.len() implies (#[trigger] b[k]).modified
                < x.modified by {
                assert(b[k] == r[j + k]);
                if k > 0 {
                    assert(r[j as int].modified >= r[j + k].modified);
                }
            }
            assert(input.take(i + 1) == input.take(i).push(x));
            assert forall|t: u64| #[trigger]
                r.insert(j as int, x).filter(modified_at(t)) == input.take(i + 1).filter(
                    modified_at(t),
                ) by {
                Seq::filter_distributes_over_add(a.push(x), b, modified_at(t));
                Seq::filter_distributes_over_add(a, b, modified_at(t));
                lemma_filter_push(a, x, t);
                lemma_filter_push(input.take(i), x, t);
                assert(r.filter(modified_at(t)) == input.take(i).filter(modified_at(t)));
                if x.modified == t {
                    lemma_filter_none(b, t);
                }
            }
        }
        out.insert(j, x);
        proof {
            assert forall|p: int, q: int| 0 <= p < q < out@.len() implies out@[p].modified
                >= out@[q].modified by {
                if q < j {
                } else if q == j {
                } else if p < j {
                    assert(out@[q] == r[q - 1]);
                } else if p == j {
                    assert(out@[q] == r[q - 1]);
                } else {
                    assert(out@[q] == r[q - 1]);
                    assert(out@[p] == r[p - 1]);
                }
            }
        }
    }
    assert(input.take(input.len() as int) == input);
    out
}

} // verus!
