use vstd::prelude::*;
use crate::span::Span;
use vstd::multiset::Multiset;
use crate::failure::{FailureKind, ParseFailure};

verus! {

broadcast use {vstd::seq_lib::group_to_multiset_ensures, vstd::multiset::group_multiset_axioms};

/// How a comment was written: `// ...` or `/* ... */`.
#[derive(Clone, Copy, Debug, PartialEq, Eq, Structural)]
pub enum CommentKind {
    Line,
    Block,
}

/// A source comment, kept apart from the syntax tree.
#[derive(Debug)]
pub struct Comment {
    pub span: Span,
    pub kind: CommentKind,
    pub text: String,
}

/// Every comment starts no later than the ones after it.
pub open spec fn ordered_by_start(s: Seq<Comment>) -> bool {
    forall|i: int, j: int| 0 <= i <= j < s.len() ==> s[i].span.start <= s[j].span.start
}

/// `out` holds exactly the comments of `input`, ordered by start offset.
pub open spec fn is_ordering_of(out: Seq<Comment>, input: Seq<Comment>) -> bool {
    ordered_by_start(out) && out.to_multiset() == input.to_multiset()
}

/// Two comments of `s` that start at the same offset are the same comment.
pub open spec fn starts_identify(s: Seq<Comment>) -> bool {
    forall|i: int, j: int|
        0 <= i < s.len() && 0 <= j < s.len() && s[i].span.start == s[j].span.start ==> s[i]
            == s[j]
}

impl Comment {
    pub fn new(start: u32, end: u32, kind: CommentKind, text: String) -> (r: Comment)
        ensures
            r.span == (Span { start, end }),
            r.kind == kind,
            r.text@ == text@,
    {
        Comment { span: Span { start, end }, kind, text }
    }
}

/// Inserts `c` into the ordered `out` before the first comment that does not
/// start earlier than `c`, and returns where it went.
fn insert_ordered(out: &mut Vec<Comment>, c: Comment) -> (pos: usize)
    requires
        ordered_by_start(old(out)@),
    ensures
        ordered_by_start(final(out)@),
        final(out)@.to_multiset() == old(out)@.to_multiset().insert(c),
        pos <= old(out)@.len(),
        final(out)@ == old(out)@.insert(pos as int, c),
        forall|j: int| 0 <= j < pos ==> old(out)@[j].span.start < c.span.start,
        (old(out)@.len() == 0 || c.span.start <= old(out)@[0].span.start) ==> final(out)@
            == seq![c] + old(out)@,
{
    let ghost c0 = c;
    let mut i: usize = 0;
    while i < out.len() && out[i].span.start < c.span.start
        invariant
            i <= out@.len(),
            forall|j: int| 0 <= j < i ==> out@[j].span.start < c.span.start,
        decreases out@.len() - i,
    {
        i = i + 1;
    }
    let ghost before = out@;
    out.insert(i, c);
    proof {
        vstd::seq_lib::to_multiset_insert(before, i as int, c0);
        let s = out@;
        assert forall|a: int, b: int| 0 <= a <= b < s.len() implies s[a].span.start
            <= s[b].span.start by {
            if a < i as int && b == i as int {
            } else if a < i as int && b > i as int {
                assert(s[b] == before[b - 1]);
            } else if a == i as int && b > i as int {
                assert(s[b] == before[b - 1]);
                assert(before[i as int].span.start >= c0.span.start);
            } else if a > i as int {
                assert(s[a] == before[a - 1]);
                assert(s[b] == before[b - 1]);
            }
        }
        if before.len() == 0 || c0.span.start <= before[0].span.start {
            assert(i == 0);
            assert(s =~= seq![c0] + before);
        }
    }
    i
}

/// `out[j]` is `input[idx[j]]` for every `j`, and comments of `out` that start
/// at the same offset come in the order they had in `input`.
pub open spec fn keeps_ties(out: Seq<Comment>, input: Seq<Comment>, idx: Seq<int>) -> bool {
    &&& idx.len() == out.len()
    &&& forall|j: int| 0 <= j < out.len() ==> 0 <= idx[j] < input.len() && out[j] == input[idx[j]]
    &&& forall|a: int, b: int|
        0 <= a < b < out.len() && out[a].span.start == out[b].span.start ==> idx[a] < idx[b]
}

/// Merges the leading and trailing comments into one list ordered by start
/// offset. Comments that start at the same offset keep the order they have in
/// `leading` followed by `trailing`; an already ordered list comes back
/// unchanged.
pub fn order_comments(leading: Vec<Comment>, trailing: Vec<Comment>) -> (r: Vec<Comment>)
    ensures
        is_ordering_of(r@, leading@ + trailing@),
        exists|idx: Seq<int>| keeps_ties(r@, leading@ + trailing@, idx),
        ordered_by_start(leading@ + trailing@) ==> r@ == leading@ + trailing@,
{
    let mut pending = leading;
    let mut rest = trailing;
    let ghost input = pending@ + rest@;
    pending.append(&mut rest);
    let mut out: Vec<Comment> = Vec::new();
    let ghost mut idx: Seq<int> = Seq::empty();
    assert(pending@ =~= input.subrange(0, pending@.len() as int));
    while pending.len() > 0
        invariant
            ordered_by_start(out@),
            pending@.len() <= input.len(),
            pending@ == input.subrange(0, pending@.len() as int),
            idx.len() == out@.len(),
            forall|j: int|
                0 <= j < out@.len() ==> pending@.len() <= #[trigger] idx[j] < input.len() && out@[j]
                    == input[idx[j]],
            forall|a: int, b: int|
                0 <= a < b < out@.len() && out@[a].span.start == out@[b].span.start ==> idx[a]
                    < idx[b],
            pending@.to_multiset().add(out@.to_multiset()) == input.to_multiset(),
            ordered_by_start(input) ==> pending@ + out@ == input,
        decreases pending@.len(),
    {
        let ghost before = pending@;
        let c = pending.pop().unwrap();
        proof {
            assert(before =~= pending@.push(c));
            if ordered_by_start(input) {
                assert(out@.len() == 0 || c.span.start <= out@[0].span.start) by {
                    if out@.len() > 0 {
                        assert(input[pending@.len() as int] == c);
                        assert(input[pending@.len() as int + 1] == out@[0]);
                    }
                }
            }
        }
        let ghost out_before = out@;
        let ghost p = pending@.len() as int;
        let pos = insert_ordered(&mut out, c);
        proof {
            assert(input[p] == c) by {
                assert(before == input.subrange(0, p + 1));
            }
            assert(pending@ =~= input.subrange(0, p));
            let idx0 = idx;
            idx = idx0.insert(pos as int, p);
            let o = out@;
            assert forall|j: int| 0 <= j < o.len() implies p <= idx[j] < input.len() && o[j]
                == input[idx[j]] by {
                if j > pos as int {
                    assert(o[j] == out_before[j - 1]);
                }
            }
            assert forall|a: int, b: int|
                0 <= a < b < o.len() && o[a].span.start == o[b].span.start implies idx[a]
                < idx[b] by {
                if b == pos as int {
                    assert(out_before[a].span.start < c.span.start);
                } else if a == pos as int {
                    assert(o[b] == out_before[b - 1]);
                } else if a > pos as int {
                    assert(o[a] == out_before[a - 1]);
                    assert(o[b] == out_before[b - 1]);
                } else if b > pos as int {
                    assert(o[b] == out_before[b - 1]);
                }
            }
            if ordered_by_start(input) {
                assert(pending@ + out@ =~= before + out_before);
            }
        }
    }
    proof {
        assert(pending@ =~= Seq::<Comment>::empty());
        assert(pending@ + out@ =~= out@);
        assert(pending@.to_multiset() =~= Multiset::<Comment>::empty());
        assert(out@.to_multiset() =~= input.to_multiset());
        assert forall|j: int| 0 <= j < out@.len() implies 0 <= idx[j] < input.len() && out@[j]
            == input[idx[j]] by {
            assert(pending@.len() <= idx[j]);
        }
        assert(keeps_ties(out@, input, idx));
    }
    out
}

/// `c` lies inside a text of `len` bytes that starts at position `base`.
pub open spec fn fits_from(c: Comment, base: u32, len: u32) -> bool {
    base <= c.span.start && c.span.start <= c.span.end && c.span.end <= base + len
}

/// `c` with its span measured from `base` instead of from zero.
pub open spec fn shifted(c: Comment, base: u32) -> Comment {
    Comment {
        span: Span { start: (c.span.start - base) as u32, end: (c.span.end - base) as u32 },
        kind: c.kind,
        text: c.text,
    }
}

/// Every comment of `s` measured from `base`.
pub open spec fn shifted_all(s: Seq<Comment>, base: u32) -> Seq<Comment> {
    s.map_values(|c: Comment| shifted(c, base))
}

/// Measures every span from `base`, the position at which a text of `len`
/// bytes starts, so that offsets count from the text's first byte. Fails with
/// an internal error where a comment does not lie inside the text.
pub fn shift_comments(cs: Vec<Comment>, base: u32, len: u32) -> (r: Result<Vec<Comment>, ParseFailure>)
    ensures
        r is Ok <==> forall|i: int| 0 <= i < cs@.len() ==> fits_from(#[trigger] cs@[i], base, len),
        r matches Ok(v) ==> v@ == shifted_all(cs@, base),
        r matches Err(e) ==> e.kind == FailureKind::InternalError,
{
    let ghost orig = cs@;
    let mut rest = cs;
    let mut out: Vec<Comment> = Vec::new();
    while rest.len() > 0
        invariant
            cs@ == orig,
            out@.len() + rest@.len() == orig.len(),
            rest@ == orig.subrange(out@.len() as int, orig.len() as int),
            forall|j: int|
                0 <= j < out@.len() ==> fits_from(orig[j], base, len) && #[trigger] out@[j]
                    == shifted(orig[j], base),
        decreases rest@.len(),
    {
        let ghost k = out@.len() as int;
        let c = rest.remove(0);
        assert(c == orig[k]);
        if !(base <= c.span.start && c.span.start <= c.span.end && c.span.end - base <= len) {
            assert(0 <= k < orig.len() && !fits_from(orig[k], base, len));
            return Err(ParseFailure::internal());
        }
        out.push(
            Comment {
                span: Span { start: c.span.start - base, end: c.span.end - base },
                kind: c.kind,
                text: c.text,
            },
        );
        assert(rest@ =~= orig.subrange(out@.len() as int, orig.len() as int));
    }
    assert(out@ =~= shifted_all(orig, base));
    assert forall|i: int| 0 <= i < orig.len() implies fits_from(#[trigger] orig[i], base, len) by {
        assert(out@[i] == shifted(orig[i], base));
    }
    Ok(out)
}

proof fn lemma_contained_in(a: Comment, s: Seq<Comment>, t: Seq<Comment>) -> (k: int)
    requires
        s.to_multiset() == t.to_multiset(),
        s.contains(a),
    ensures
        0 <= k < t.len(),
        t[k] == a,
{
    assert(s.to_multiset().count(a) > 0);
    assert(t.contains(a));
    choose|k: int| 0 <= k < t.len() && t[k] == a
}

/// Orderings are unique: where no two different comments start at the same
/// offset, any two orderings of the same comments are equal. The order in which
/// comments were collected therefore never shows in the result.
pub proof fn lemma_ordering_unique(input: Seq<Comment>, o1: Seq<Comment>, o2: Seq<Comment>)
    requires
        starts_identify(input),
        is_ordering_of(o1, input),
        is_ordering_of(o2, input),
    ensures
        o1 == o2,
    decreases o1.len(),
{
    assert(o1.to_multiset().len() == o1.len());
    assert(o2.to_multiset().len() == o2.len());
    if o1.len() == 0 {
        assert(o1 =~= o2);
    } else {
        let x = o1[0];
        let y = o2[0];
        assert(o1.contains(x));
        assert(o2.contains(y));
        let k = lemma_contained_in(x, o1, o2);
        let m = lemma_contained_in(y, o2, o1);
        let p = lemma_contained_in(x, o1, input);
        let q = lemma_contained_in(y, o2, input);
        assert(x.span.start <= o1[m].span.start);
        assert(y.span.start <= o2[k].span.start);
        assert(input[p].span.start == input[q].span.start);
        assert(x == y);
        let r1 = o1.drop_first();
        let r2 = o2.drop_first();
        vstd::seq_lib::to_multiset_remove(o1, 0);
        vstd::seq_lib::to_multiset_remove(o2, 0);
        assert(o1.remove(0) =~= r1);
        assert(o2.remove(0) =~= r2);
        let rest = r1;
        assert(starts_identify(rest)) by {
            assert forall|i: int, j: int|
                0 <= i < rest.len() && 0 <= j < rest.len() && rest[i].span.start
                    == rest[j].span.start implies rest[i] == rest[j] by {
                assert(o1.contains(rest[i])) by {
                    assert(o1[i + 1] == rest[i]);
                }
                assert(o1.contains(rest[j])) by {
                    assert(o1[j + 1] == rest[j]);
                }
                let a = lemma_contained_in(rest[i], o1, input);
                let b = lemma_contained_in(rest[j], o1, input);
                assert(input[a].span.start == input[b].span.start);
            }
        }
        assert(is_ordering_of(r1, rest)) by {
            assert forall|i: int, j: int| 0 <= i <= j < r1.len() implies r1[i].span.start
                <= r1[j].span.start by {
                assert(r1[i] == o1[i + 1]);
                assert(r1[j] == o1[j + 1]);
            }
        }
        assert(is_ordering_of(r2, rest)) by {
            assert forall|i: int, j: int| 0 <= i <= j < r2.len() implies r2[i].span.start
                <= r2[j].span.start by {
                assert(r2[i] == o2[i + 1]);
                assert(r2[j] == o2[j + 1]);
            }
        }
        lemma_ordering_unique(rest, r1, r2);
        assert(o1 =~= seq![x] + r1);
        assert(o2 =~= seq![y] + r2);
    }
}

} // verus!
