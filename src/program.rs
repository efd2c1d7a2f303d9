use vstd::prelude::*;
use swc_common::comments::SingleThreadedComments;
use swc_ecma_ast::Program;
use vstd::multiset::Multiset;
use crate::comments::{
    fits_from, lemma_ordering_unique, order_comments, ordered_by_start, shift_comments, shifted_all,
    starts_identify, Comment, CommentKind,
};
use crate::failure::{FailureKind, ParseFailure};
use crate::pipeline::{assemble_output, comment_payload};
use crate::span::Span;

verus! {

broadcast use vstd::seq_lib::group_to_multiset_ensures;

/// The comments a store holds, leading and trailing together, as library
/// comments with swc's byte positions.
pub uninterp spec fn stored_comments(store: SingleThreadedComments) -> Multiset<Comment>;

/// swc's comment store, filled by the parser; read only through
/// `collected_comments`.
#[verifier::external_type_specification]
#[verifier::external_body]
pub struct ExSingleThreadedComments(SingleThreadedComments);

/// swc's syntax tree after resolution, carried opaque to `program_json`.
#[verifier::external_type_specification]
#[verifier::external_body]
pub struct ExProgram(Program);

/// Relies on SingleThreadedComments::borrow_all: the comments the parser
/// attached before a token and those it attached after one, each converted to
/// a library comment. Together they are exactly what the store holds; they
/// come in the order the underlying hash maps are walked, so nothing is
/// promised of their order.
#[verifier::external_body]
fn collected_comments(store: &SingleThreadedComments) -> (r: (Vec<Comment>, Vec<Comment>))
    ensures
        (r.0@ + r.1@).to_multiset() == stored_comments(*store),
{
    let (leading, trailing) = store.borrow_all();
    let conv = |c: &swc_common::comments::Comment| Comment {
        span: Span { start: c.span.lo.0, end: c.span.hi.0 },
        kind: match c.kind {
            swc_common::comments::CommentKind::Line => CommentKind::Line,
            swc_common::comments::CommentKind::Block => CommentKind::Block,
        },
        text: c.text.to_string(),
    };
    (leading.values().flatten().map(conv).collect(), trailing.values().flatten().map(conv).collect())
}

/// Relies on serde_json::to_string on swc's `Program`: the tree encoded through
/// the `Serialize` impl that swc derives for it. Nothing is stated of the text.
#[verifier::external_body]
fn program_json(program: &Program) -> (r: Result<String, serde_json::Error>) {
    serde_json::to_string(program)
}

/// Every comment of `m` lies inside a text of `len` bytes starting at `base`.
pub open spec fn all_fit(m: Multiset<Comment>, base: u32, len: u32) -> bool {
    forall|c: Comment| m.count(c) > 0 ==> fits_from(c, base, len)
}

/// No two different comments of `m` start at the same position.
pub open spec fn distinct_starts(m: Multiset<Comment>) -> bool {
    forall|a: Comment, b: Comment|
        m.count(a) > 0 && m.count(b) > 0 && a.span.start == b.span.start ==> a == b
}

/// `v` is the comments of `store` ordered by start, measured from `base`.
pub open spec fn ordered_from(v: Seq<Comment>, store: SingleThreadedComments, base: u32) -> bool {
    exists|o: Seq<Comment>|
        ordered_by_start(o) && o.to_multiset() == stored_comments(store) && v == shifted_all(o, base)
}

/// `c` is a comment payload for `store`: its comments ordered by start and
/// measured from `base`, or an empty array when comments are not asked for.
pub open spec fn payload_for(
    c: Seq<char>,
    store: SingleThreadedComments,
    base: u32,
    include_comments: bool,
) -> bool {
    exists|o: Seq<Comment>|
        ordered_by_start(o) && o.to_multiset() == stored_comments(store) && c == comment_payload(
            shifted_all(o, base),
            include_comments,
        )
}

/// The comments of `comments`, ordered by start offset, with offsets counted
/// from the first byte of the text of `text_len` bytes that starts at swc
/// position `base`. Fails with an internal error exactly when a comment does
/// not lie inside that text.
pub fn convert_comments(comments: SingleThreadedComments, base: u32, text_len: u32) -> (r: Result<
    Vec<Comment>,
    ParseFailure,
>)
    ensures
        r is Ok <==> all_fit(stored_comments(comments), base, text_len),
        r matches Ok(v) ==> ordered_by_start(v@) && ordered_from(v@, comments, base),
        r matches Err(e) ==> e.kind == FailureKind::InternalError,
{
    let (leading, trailing) = collected_comments(&comments);
    let ordered = order_comments(leading, trailing);
    let ghost o = ordered@;
    let ghost m = stored_comments(comments);
    proof {
        assert forall|c: Comment| m.count(c) > 0 <==> o.contains(c) by {}
    }
    let r = shift_comments(ordered, base, text_len);
    proof {
        if all_fit(m, base, text_len) {
            assert forall|i: int| 0 <= i < o.len() implies fits_from(#[trigger] o[i], base, text_len) by {
                assert(o.contains(o[i]));
            }
        } else {
            let c = choose|c: Comment| m.count(c) > 0 && !fits_from(c, base, text_len);
            assert(o.contains(c));
        }
        if let Ok(v) = &r {
            assert(ordered_from(v@, comments, base));
            assert forall|i: int, j: int| 0 <= i <= j < v@.len() implies v@[i].span.start
                <= v@[j].span.start by {
                assert(fits_from(o[i], base, text_len));
                assert(fits_from(o[j], base, text_len));
            }
        }
    }
    r
}

/// Encodes a parsed and resolved tree and the comments collected while
/// reading its text of `text_len` bytes, which starts at swc position `base`.
/// Either both payloads come back or a single failure does: a serialization
/// failure where the tree does not encode, else an internal one exactly when
/// a comment lies outside the text.
pub fn finish_parse(
    program: &Program,
    comments: SingleThreadedComments,
    base: u32,
    text_len: u32,
    include_comments: bool,
) -> (r: Result<(String, String), ParseFailure>)
    ensures
        r matches Err(e) ==> e.kind == FailureKind::SerializationError || e.kind
            == FailureKind::InternalError,
        r matches Err(e) && e.kind == FailureKind::InternalError ==> !all_fit(
            stored_comments(comments),
            base,
            text_len,
        ),
        !all_fit(stored_comments(comments), base, text_len) ==> r is Err,
        r matches Ok((a, c)) ==> payload_for(c@, comments, base, include_comments),
{
    let ast = match program_json(program) {
        Ok(a) => a,
        Err(_) => {
            return Err(ParseFailure::serialization());
        },
    };
    let ghost store = comments;
    let ordered = match convert_comments(comments, base, text_len) {
        Ok(v) => v,
        Err(e) => {
            return Err(e);
        },
    };
    let r = assemble_output(Some(ast), ordered, include_comments);
    assert(r matches Ok((a, c)) ==> payload_for(c@, store, base, include_comments));
    r
}

/// Two stores that hold the same comments, no two different ones starting at
/// the same position, give the same comment payload: the order in which swc's
/// hash maps are walked never shows in the result.
pub proof fn law_comment_payload_deterministic(
    store1: SingleThreadedComments,
    store2: SingleThreadedComments,
    base: u32,
    include_comments: bool,
    c1: Seq<char>,
    c2: Seq<char>,
)
    requires
        stored_comments(store1) == stored_comments(store2),
        distinct_starts(stored_comments(store1)),
        payload_for(c1, store1, base, include_comments),
        payload_for(c2, store2, base, include_comments),
    ensures
        c1 == c2,
{
    let m = stored_comments(store1);
    let o1 = choose|o: Seq<Comment>|
        ordered_by_start(o) && o.to_multiset() == stored_comments(store1) && c1 == comment_payload(
            shifted_all(o, base),
            include_comments,
        );
    let o2 = choose|o: Seq<Comment>|
        ordered_by_start(o) && o.to_multiset() == stored_comments(store2) && c2 == comment_payload(
            shifted_all(o, base),
            include_comments,
        );
    assert(starts_identify(o1)) by {
        assert forall|i: int, j: int|
            0 <= i < o1.len() && 0 <= j < o1.len() && o1[i].span.start == o1[j].span.start implies o1[i]
            == o1[j] by {
            assert(o1.contains(o1[i]));
            assert(o1.contains(o1[j]));
            assert(m.count(o1[i]) > 0);
            assert(m.count(o1[j]) > 0);
        }
    }
    lemma_ordering_unique(o1, o1, o2);
}

} // verus!
