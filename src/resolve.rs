//! The per-request decision: what the static resolver found, checked against
//! the allow-list, becomes the response to send.
use vstd::prelude::*;

use crate::allow_list::{AllowList, joined_set};
use crate::path::{is_canonical, is_prefix, is_segment_ancestor, join, lemma_join_canonical, normalize, render, render_segments};

verus! {

/// What the static resolver made of a request path under the root.
pub enum Lookup {
    /// A regular file was opened; its canonical path, where it could be
    /// determined from the open handle.
    Found(Option<String>),
    NotFound,
    /// The path names a directory (the resolver would redirect).
    IsDirectory,
    MethodNotMatched,
    PermissionDenied,
    /// Reading the file system failed.
    Failed,
}

#[derive(Debug, Clone, Copy, PartialEq, Eq, Structural)]
pub enum Verdict {
    /// Stream the file that was opened.
    Serve,
    Forbidden,
    NotFound,
    ServerError,
}

/// The verdict on a found file whose canonical path is `p`.
pub open spec fn found_verdict(list: AllowList, p: Seq<char>) -> Verdict {
    if list.permits(p) {
        Verdict::Serve
    } else {
        Verdict::Forbidden
    }
}

pub open spec fn decision(list: AllowList, lookup: Lookup) -> Verdict {
    match lookup {
        Lookup::Found(Some(p)) => found_verdict(list, p@),
        Lookup::Found(None) => Verdict::Forbidden,
        Lookup::Failed => Verdict::ServerError,
        _ => Verdict::NotFound,
    }
}

/// Decides a request: a file is served only if the allow-list permits its
/// canonical path; a file whose path is unknown is refused; anything the
/// resolver did not find is not found.
pub fn decide(list: &AllowList, lookup: &Lookup) -> (v: Verdict)
    ensures
        v == decision(*list, *lookup),
{
    match lookup {
        Lookup::Found(Some(p)) => {
            if list.is_allowed(p.as_str()) {
                Verdict::Serve
            } else {
                Verdict::Forbidden
            }
        },
        Lookup::Found(None) => Verdict::Forbidden,
        Lookup::Failed => Verdict::ServerError,
        _ => Verdict::NotFound,
    }
}

pub open spec fn status_of(v: Verdict) -> u16 {
    match v {
        Verdict::Serve => 200,
        Verdict::Forbidden => 403,
        Verdict::NotFound => 404,
        Verdict::ServerError => 500,
    }
}

impl Verdict {
    /// The HTTP status code of the response. A ranged request for a served
    /// file turns 200 into 206 where the response is built.
    pub fn status(&self) -> (r: u16)
        ensures
            r == status_of(*self),
    {
        match self {
            Verdict::Serve => 200,
            Verdict::Forbidden => 403,
            Verdict::NotFound => 404,
            Verdict::ServerError => 500,
        }
    }

    /// The body of a refusal; empty for a served file, whose body is the file.
    pub fn body(&self) -> (r: &'static str)
        ensures
            *self == Verdict::Serve ==> r@ == ""@,
            *self == Verdict::Forbidden ==> r@ == "403 Forbidden"@,
            *self == Verdict::NotFound ==> r@ == "404 Not Found"@,
            *self == Verdict::ServerError ==> r@ == "500 Internal Server Error"@,
    {
        match self {
            Verdict::Serve => "",
            Verdict::Forbidden => "403 Forbidden",
            Verdict::NotFound => "404 Not Found",
            Verdict::ServerError => "500 Internal Server Error",
        }
    }
}

proof fn lemma_render_segments_absolute(segs: Seq<Seq<char>>)
    requires
        segs.len() > 0,
    ensures
        render_segments(segs).len() > 0,
        render_segments(segs)[0] == '/',
    decreases segs.len(),
{
    let t = segs.drop_last();
    let r = render_segments(t) + seq!['/'] + segs.last();
    if t.len() == 0 {
        assert(r[0] == (render_segments(t) + seq!['/'])[0]);
    } else {
        lemma_render_segments_absolute(t);
        assert(r[0] == render_segments(t)[0]);
    }
}

/// A canonical path is absolute.
pub proof fn lemma_canonical_absolute(p: Seq<char>)
    requires
        is_canonical(p),
    ensures
        p.len() > 0,
        p[0] == '/',
{
    let segs = crate::path::segments_of(p);
    if segs.len() > 0 {
        lemma_render_segments_absolute(segs);
    }
    assert(render(segs) == p);
}

/// A file allowed one by one is served when a request resolves to it.
pub proof fn lemma_inserted_file_served(before: AllowList, after: AllowList, item: Seq<char>)
    requires
        after.root_view() == before.root_view(),
        after.exact_set() == before.exact_set().insert(join(before.root_view(), item)),
    ensures
        found_verdict(after, join(before.root_view(), item)) == Verdict::Serve,
{
    let p = join(before.root_view(), item);
    lemma_join_canonical(before.root_view(), item);
    lemma_canonical_absolute(p);
    assert(normalize(p) == p);
    assert(after.exact_set().contains(p));
}

/// A canonical file below one of the directories the allow-list was built
/// with is served.
pub proof fn lemma_prefix_file_served(list: AllowList, dirs: Seq<Seq<char>>, i: int, f: Seq<char>)
    requires
        list.prefix_set() == joined_set(list.root_view(), dirs),
        0 <= i < dirs.len(),
        is_segment_ancestor(join(list.root_view(), dirs[i]), f),
        is_canonical(f),
    ensures
        found_verdict(list, f) == Verdict::Serve,
{
    lemma_canonical_absolute(f);
    let d = join(list.root_view(), dirs[i]);
    assert(list.prefix_set().contains(d));
    assert(list.under_prefix(f));
}

/// A canonical file that is neither allowed one by one nor below an allowed
/// directory is refused.
pub proof fn lemma_default_deny(list: AllowList, f: Seq<char>)
    requires
        is_canonical(f),
        !list.exact_set().contains(f),
        forall|d: Seq<char>| list.prefix_set().contains(d) ==> !is_segment_ancestor(d, f),
    ensures
        found_verdict(list, f) == Verdict::Forbidden,
{
}

/// A stored directory that is a character prefix of a file's path but does
/// not end on one of its segment boundaries (`/public` before
/// `/public2/file`) does not allow that file.
pub proof fn lemma_no_false_ancestor(list: AllowList, d: Seq<char>, f: Seq<char>)
    requires
        list.prefix_set() == set![d],
        !list.exact_set().contains(f),
        is_canonical(f),
        is_prefix(d, f),
        0 < d.len() < f.len(),
        d.last() != '/',
        f[d.len() as int] != '/',
    ensures
        found_verdict(list, f) == Verdict::Forbidden,
{
    lemma_canonical_absolute(f);
}

/// A request for a path the resolver does not find is answered 404,
/// whatever the allow-list holds.
pub proof fn lemma_missing_not_found(list: AllowList)
    ensures
        decision(list, Lookup::NotFound) == Verdict::NotFound,
        status_of(decision(list, Lookup::NotFound)) == 404,
{
}

/// Allowing a file loses nothing: whatever was served before still is, and
/// the new file is served too.
pub proof fn lemma_insert_monotone(before: AllowList, after: AllowList, item: Seq<char>, p: Seq<char>)
    requires
        after.root_view() == before.root_view(),
        after.prefix_set() == before.prefix_set(),
        after.exact_set() == before.exact_set().insert(join(before.root_view(), item)),
    ensures
        found_verdict(before, p) == Verdict::Serve ==> found_verdict(after, p) == Verdict::Serve,
        found_verdict(after, join(before.root_view(), item)) == Verdict::Serve,
{
    lemma_inserted_file_served(before, after, item);
    if found_verdict(before, p) == Verdict::Serve {
        let c = normalize(p);
        if before.exact_set().contains(c) {
            assert(after.exact_set().contains(c));
        } else {
            let d = choose|d: Seq<char>| before.prefix_set().contains(d) && is_segment_ancestor(d, c);
            assert(after.prefix_set().contains(d));
        }
    }
}

} // verus!
