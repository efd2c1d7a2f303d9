use vstd::prelude::*;
use vstd::string::StringExecFns;
use crate::comments::Comment;
use crate::encode::{comments_json, serialize_comments};
use crate::failure::{FailureKind, ParseFailure};

verus! {

/// Which grammar a parse call reads, and what it hands back.
#[derive(Clone, Copy, Debug, PartialEq, Eq, Structural)]
pub struct ParseOptions {
    /// Read TypeScript rather than plain JavaScript.
    pub typescript: bool,
    /// Accept JSX syntax.
    pub jsx: bool,
    /// Read the text as a module rather than as a script.
    pub module: bool,
    /// Hand back the comment list; when off, the comment payload is empty.
    pub include_comments: bool,
}

impl ParseOptions {
    /// JavaScript without JSX, read as a module, with comments.
    pub fn new() -> (r: ParseOptions)
        ensures
            !r.typescript,
            !r.jsx,
            r.module,
            r.include_comments,
    {
        ParseOptions { typescript: false, jsx: false, module: true, include_comments: true }
    }
}

/// The comment payload for `comments`: their JSON array, or an empty array
/// when comments are not asked for.
pub open spec fn comment_payload(comments: Seq<Comment>, include_comments: bool) -> Seq<char> {
    if include_comments {
        comments_json(comments)
    } else {
        "[]"@
    }
}

/// Puts together the outcome of a parse call from the encoded tree (`None`
/// where encoding the tree failed) and the ordered comment list. Either both
/// payloads come back or a single failure does.
pub fn assemble_output(ast_json: Option<String>, comments: Vec<Comment>, include_comments: bool) -> (r:
    Result<(String, String), ParseFailure>)
    ensures
        ast_json.is_none() <==> r is Err,
        r matches Ok((a, c)) ==> ast_json == Some(a) && c@ == comment_payload(
            comments@,
            include_comments,
        ),
        r matches Err(e) ==> e.kind == FailureKind::SerializationError,
{
    let ast = match ast_json {
        Some(a) => a,
        None => {
            return Err(ParseFailure::serialization());
        },
    };
    if !include_comments {
        return Ok((ast, String::from_str("[]")));
    }
    Ok((ast, serialize_comments(&comments)))
}

} // verus!
