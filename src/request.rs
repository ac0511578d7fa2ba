//! From a request's path to the text of the file path it names under the
//! served directory.
//!
//! The path is normalised by actix-web's own segment check, the one that its
//! static-file handler (`StaticFiles`) applies before it joins the result to
//! the served directory: `..` can only drop a segment that the path itself
//! named, so the path text never climbs above the served directory.
//!
//! `resolve` restates the path text that `StaticFiles` builds; the server
//! itself serves through `StaticFiles` and does not call it. What is shown
//! here is about that text only: `StaticFiles` then canonicalises it, and a
//! symbolic link under the served directory may lead outside it.
use vstd::prelude::*;
use std::path::PathBuf;
use actix_web::dev::FromParam;
use actix_web::error::UriSegmentError;

verus! {

#[verifier::external_type_specification]
#[verifier::external_body]
pub struct ExUriSegmentError(UriSegmentError);

/// Why a request's path names no file under the served directory.
#[derive(Clone, Copy, Debug, PartialEq, Eq, Structural)]
pub enum RequestError {
    /// A segment of the path is refused: it starts with `.` or `*`, or ends
    /// with `:`, `>` or `<`.
    BadSegment,
}

/// The parts of `s` between its `/` characters: `"a//b/"` has the parts
/// `a`, ``, `b` and ``.
pub open spec fn split_slash(s: Seq<char>) -> Seq<Seq<char>>
    decreases s.len(),
{
    if s.len() == 0 {
        seq![Seq::empty()]
    } else {
        let init = split_slash(s.drop_last());
        if s.last() == '/' {
            init.push(Seq::empty())
        } else {
            init.update(init.len() - 1, init.last().push(s.last()))
        }
    }
}

/// One segment's effect on the segments kept so far.
pub open spec fn step(kept: Seq<Seq<char>>, seg: Seq<char>) -> Result<Seq<Seq<char>>, RequestError> {
    if seg == ".."@ {
        Ok(if kept.len() == 0 { kept } else { kept.drop_last() })
    } else if seg.len() > 0 && (seg[0] == '.' || seg[0] == '*') {
        Err(RequestError::BadSegment)
    } else if seg.len() > 0 && (seg.last() == ':' || seg.last() == '>' || seg.last() == '<') {
        Err(RequestError::BadSegment)
    } else if seg.len() == 0 {
        Ok(kept)
    } else {
        Ok(kept.push(seg))
    }
}

/// The segments kept after reading `segs` in order, or the first refusal.
pub open spec fn walk(segs: Seq<Seq<char>>) -> Result<Seq<Seq<char>>, RequestError>
    decreases segs.len(),
{
    if segs.len() == 0 {
        Ok(Seq::empty())
    } else {
        match walk(segs.drop_last()) {
            Err(e) => Err(e),
            Ok(kept) => step(kept, segs.last()),
        }
    }
}

/// The segments of the file that a request's path names, relative to the
/// served directory.
pub open spec fn request_segments(path: Seq<char>) -> Result<Seq<Seq<char>>, RequestError> {
    walk(split_slash(path))
}

/// Relies on actix-web's `impl FromParam for PathBuf`: it splits the text at
/// each `/`, skips empty segments, lets `..` drop the last kept segment (none
/// when nothing is kept), refuses a segment that starts with `.` or `*` or
/// ends with `:`, `>` or `<`, and pushes every other segment. The kept
/// segments are read back as the path's components, which are those segments
/// as pushed. On Windows it also refuses a segment holding `\`; this
/// statement is of the Unix behaviour.
#[verifier::external_body]
fn normalise(path: &str) -> (r: Result<Vec<String>, UriSegmentError>)
    ensures
        match request_segments(path@) {
            Ok(segs) => r is Ok && r->Ok_0@.map_values(|x: String| x@) == segs,
            Err(_) => r is Err,
        },
{
    PathBuf::from_param(path).map(
        |p| p.iter().map(|c| c.to_string_lossy().into_owned()).collect(),
    )
}

/// `root` followed by each segment, each after a `/`.
pub open spec fn join_under(root: Seq<char>, segs: Seq<Seq<char>>) -> Seq<char>
    decreases segs.len(),
{
    if segs.len() == 0 {
        root
    } else {
        join_under(root, segs.drop_last()) + "/"@ + segs.last()
    }
}

/// The text of the file system path that a request's path names under
/// `root`, as `StaticFiles` joins it before canonicalising; the path is
/// decoded already, as the router hands it over.
pub fn resolve(root: &str, path: &str) -> (r: Result<String, RequestError>)
    ensures
        match request_segments(path@) {
            Ok(segs) => r is Ok && r->Ok_0@ == join_under(root@, segs),
            Err(e) => r == Err::<String, RequestError>(e),
        },
{
    let segs = match normalise(path) {
        Ok(segs) => segs,
        Err(_) => return Err(RequestError::BadSegment),
    };
    let ghost views = segs@.map_values(|x: String| x@);
    let mut out = String::from_str(root);
    let mut i: usize = 0;
    while i < segs.len()
        invariant
            i <= segs.len(),
            views == segs@.map_values(|x: String| x@),
            out@ == join_under(root@, views.subrange(0, i as int)),
        decreases segs.len() - i,
    {
        assert(views.subrange(0, i + 1).drop_last() =~= views.subrange(0, i as int));
        out = out.concat("/");
        out = out.concat(segs[i].as_str());
        i = i + 1;
    }
    assert(views.subrange(0, segs.len() as int) =~= views);
    Ok(out)
}

pub open spec fn no_slash(x: Seq<char>) -> bool {
    forall|j: int| 0 <= j < x.len() ==> #[trigger] x[j] != '/'
}

/// A segment that names an entry inside a directory: not empty, not `.` or
/// `..` nor any other name that starts with a dot, and free of separators.
pub open spec fn inner_segment(x: Seq<char>) -> bool {
    &&& x.len() > 0
    &&& x[0] != '.'
    &&& no_slash(x)
}

proof fn lemma_split_parts(s: Seq<char>)
    ensures
        split_slash(s).len() >= 1,
        forall|i: int| 0 <= i < split_slash(s).len() ==> no_slash(#[trigger] split_slash(s)[i]),
    decreases s.len(),
{
    if s.len() > 0 {
        let init = split_slash(s.drop_last());
        lemma_split_parts(s.drop_last());
        if s.last() != '/' {
            let last = init.last().push(s.last());
            assert(no_slash(init[init.len() - 1]));
            assert(no_slash(last)) by {
                assert forall|j: int| 0 <= j < last.len() implies #[trigger] last[j] != '/' by {
                    if j < init.last().len() {
                        assert(last[j] == init.last()[j]);
                    }
                }
            }
            assert forall|i: int| 0 <= i < split_slash(s).len() implies no_slash(#[trigger] split_slash(s)[i]) by {
                if i < init.len() - 1 {
                    assert(split_slash(s)[i] == init[i]);
                }
            }
        } else {
            assert forall|i: int| 0 <= i < split_slash(s).len() implies no_slash(#[trigger] split_slash(s)[i]) by {
                if i < init.len() {
                    assert(split_slash(s)[i] == init[i]);
                } else {
                    assert(split_slash(s)[i] =~= Seq::<char>::empty());
                }
            }
        }
    }
}

proof fn lemma_walk_inner(segs: Seq<Seq<char>>)
    requires
        forall|i: int| 0 <= i < segs.len() ==> no_slash(#[trigger] segs[i]),
    ensures
        walk(segs) is Ok ==> forall|i: int|
            0 <= i < walk(segs)->Ok_0.len() ==> inner_segment(#[trigger] walk(segs)->Ok_0[i]),
    decreases segs.len(),
{
    if segs.len() > 0 {
        let init = segs.drop_last();
        assert forall|i: int| 0 <= i < init.len() implies no_slash(#[trigger] init[i]) by {
            assert(init[i] == segs[i]);
        }
        lemma_walk_inner(init);
        assert(no_slash(segs[segs.len() - 1]));
        if walk(segs) is Ok {
            let kept = walk(init)->Ok_0;
            let out = walk(segs)->Ok_0;
            assert forall|i: int| 0 <= i < out.len() implies inner_segment(#[trigger] out[i]) by {
                if i < kept.len() {
                    assert(out[i] == kept[i]);
                }
            }
        }
    }
}

/// Whatever a request's path holds (`..`, `.`, empty or repeated
/// separators), every segment that it resolves to names an entry inside a
/// directory: the resolved path text is the served directory itself or lies
/// beneath it. This speaks of the text, before any symbolic link is followed.
pub proof fn lemma_resolution_stays_under_root(path: Seq<char>)
    ensures
        request_segments(path) is Ok ==> forall|i: int|
            0 <= i < request_segments(path)->Ok_0.len() ==> inner_segment(
                #[trigger] request_segments(path)->Ok_0[i],
            ),
{
    lemma_split_parts(path);
    lemma_walk_inner(split_slash(path));
}

} // verus!
