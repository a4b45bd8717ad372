//! Canonical absolute paths, kept as strings.
//!
//! A path is read as a sequence of `/`-separated segments. Normalising drops
//! empty and `.` segments and lets `..` remove the segment before it (never
//! climbing above `/`). The canonical form is the rendering of the remaining
//! segments: `/` followed by the segments joined with `/`, or `/` alone.
use vstd::prelude::*;
use vstd::string::*;

verus! {

/// A segment that survives normalisation: non-empty, not `.` or `..`, no `/`.
pub open spec fn is_clean_segment(x: Seq<char>) -> bool {
    &&& x.len() > 0
    &&& x != seq!['.']
    &&& x != seq!['.', '.']
    &&& !x.contains('/')
}

pub open spec fn all_clean(segs: Seq<Seq<char>>) -> bool {
    forall|i: int| 0 <= i < segs.len() ==> is_clean_segment(#[trigger] segs[i])
}

/// The effect of one finished segment on the stack of segments kept so far.
pub open spec fn push_segment(stack: Seq<Seq<char>>, seg: Seq<char>) -> Seq<Seq<char>> {
    if seg.len() == 0 || seg == seq!['.'] {
        stack
    } else if seg == seq!['.', '.'] {
        if stack.len() == 0 {
            stack
        } else {
            stack.drop_last()
        }
    } else {
        stack.push(seg)
    }
}

/// Left-to-right scan of a path: the segments kept so far and the segment
/// that is still being read.
pub open spec fn scan(s: Seq<char>) -> (Seq<Seq<char>>, Seq<char>)
    decreases s.len(),
{
    if s.len() == 0 {
        (Seq::empty(), Seq::empty())
    } else {
        let prev = scan(s.drop_last());
        if s.last() == '/' {
            (push_segment(prev.0, prev.1), Seq::empty())
        } else {
            (prev.0, prev.1.push(s.last()))
        }
    }
}

/// The segments of `s` after normalisation.
pub open spec fn segments_of(s: Seq<char>) -> Seq<Seq<char>> {
    push_segment(scan(s).0, scan(s).1)
}

/// `/a/b/c` for the segments `a`, `b`, `c`; empty for no segments.
pub open spec fn render_segments(segs: Seq<Seq<char>>) -> Seq<char>
    decreases segs.len(),
{
    if segs.len() == 0 {
        Seq::empty()
    } else {
        render_segments(segs.drop_last()) + seq!['/'] + segs.last()
    }
}

pub open spec fn render(segs: Seq<Seq<char>>) -> Seq<char> {
    if segs.len() == 0 {
        seq!['/']
    } else {
        render_segments(segs)
    }
}

/// The canonical form of a path.
pub open spec fn normalize(s: Seq<char>) -> Seq<char> {
    render(segments_of(s))
}

pub open spec fn is_canonical(s: Seq<char>) -> bool {
    normalize(s) == s
}

/// `rel` resolved against `root`: an absolute `rel` stands for itself.
pub open spec fn join(root: Seq<char>, rel: Seq<char>) -> Seq<char> {
    if rel.len() > 0 && rel[0] == '/' {
        normalize(rel)
    } else {
        normalize(root + seq!['/'] + rel)
    }
}

pub open spec fn is_prefix(a: Seq<char>, b: Seq<char>) -> bool {
    a.len() <= b.len() && b.subrange(0, a.len() as int) == a
}

/// `d` is `p` itself or a directory above it: a prefix that ends on a
/// segment boundary of `p`, so `/a/b` is an ancestor of `/a/b/c` but not of
/// `/a/bc`.
pub open spec fn is_segment_ancestor(d: Seq<char>, p: Seq<char>) -> bool {
    &&& is_prefix(d, p)
    &&& (d.len() == p.len() || (d.len() > 0 && d.last() == '/') || p[d.len() as int] == '/')
}

pub open spec fn views(v: Seq<String>) -> Seq<Seq<char>> {
    v.map_values(|s: String| s@)
}

proof fn lemma_scan_clean(s: Seq<char>)
    ensures
        all_clean(scan(s).0),
        !scan(s).1.contains('/'),
    decreases s.len(),
{
    if s.len() > 0 {
        lemma_scan_clean(s.drop_last());
        let prev = scan(s.drop_last());
        if s.last() != '/' {
            assert forall|j: int| 0 <= j < prev.1.push(s.last()).len() implies
                prev.1.push(s.last())[j] != '/' by {
                if j < prev.1.len() {
                    assert(prev.1[j] == prev.1.push(s.last())[j]);
                }
            }
        }
    }
}

proof fn lemma_scan_slash_free(b: Seq<char>, x: Seq<char>)
    requires
        !x.contains('/'),
    ensures
        scan(b + x) == (scan(b).0, scan(b).1 + x),
    decreases x.len(),
{
    if x.len() == 0 {
        assert(b + x =~= b);
        assert(scan(b).1 + x =~= scan(b).1);
    } else {
        let y = x.drop_last();
        assert(!y.contains('/')) by {
            assert forall|j: int| 0 <= j < y.len() implies y[j] != '/' by {
                assert(y[j] == x[j]);
            }
        }
        lemma_scan_slash_free(b, y);
        assert((b + x).drop_last() =~= b + y);
        assert((b + x).last() == x.last());
        assert(x.last() != '/') by {
            assert(x[x.len() - 1] == x.last());
        }
        assert((scan(b).1 + y).push(x.last()) =~= scan(b).1 + x);
    }
}

proof fn lemma_scan_rendered(segs: Seq<Seq<char>>)
    requires
        all_clean(segs),
        segs.len() > 0,
    ensures
        scan(render_segments(segs)) == (segs.drop_last(), segs.last()),
    decreases segs.len(),
{
    let t = segs.drop_last();
    let x = segs.last();
    assert(is_clean_segment(segs[segs.len() - 1]));
    let b = render_segments(t) + seq!['/'];
    assert((render_segments(t) + seq!['/']).drop_last() =~= render_segments(t));
    assert(b.last() == '/');
    if t.len() == 0 {
        assert(render_segments(t) == Seq::<char>::empty());
        assert(scan(Seq::<char>::empty()) == (Seq::<Seq<char>>::empty(), Seq::<char>::empty()));
        assert(scan(b) == (push_segment(Seq::<Seq<char>>::empty(), Seq::<char>::empty()), Seq::<char>::empty()));
    } else {
        assert(all_clean(t)) by {
            assert forall|i: int| 0 <= i < t.len() implies is_clean_segment(#[trigger] t[i]) by {
                assert(t[i] == segs[i]);
            }
        }
        lemma_scan_rendered(t);
        assert(is_clean_segment(t[t.len() - 1]));
        assert(t.drop_last().push(t.last()) =~= t);
    }
    lemma_scan_slash_free(b, x);
    assert(Seq::<char>::empty() + x =~= x);
}

/// Normalising is idempotent: a normalised path is canonical.
pub proof fn lemma_normalize_canonical(s: Seq<char>)
    ensures
        is_canonical(normalize(s)),
{
    let segs = segments_of(s);
    lemma_scan_clean(s);
    let st = scan(s).0;
    let cur = scan(s).1;
    assert(all_clean(segs)) by {
        if !(cur.len() == 0 || cur == seq!['.']) && cur != seq!['.', '.'] {
            assert forall|i: int| 0 <= i < segs.len() implies is_clean_segment(#[trigger] segs[i]) by {
                if i < st.len() {
                    assert(segs[i] == st[i]);
                }
            }
        } else if cur == seq!['.', '.'] && st.len() > 0 {
            assert forall|i: int| 0 <= i < segs.len() implies is_clean_segment(#[trigger] segs[i]) by {
                assert(segs[i] == st[i]);
            }
        }
    }
    if segs.len() == 0 {
        assert(seq!['/'].drop_last() =~= Seq::<char>::empty());
        assert(scan(Seq::<char>::empty()) == (Seq::<Seq<char>>::empty(), Seq::<char>::empty()));
        assert(scan(seq!['/']) == (Seq::<Seq<char>>::empty(), Seq::<char>::empty()));
    } else {
        lemma_scan_rendered(segs);
        assert(is_clean_segment(segs[segs.len() - 1]));
        assert(segs.drop_last().push(segs.last()) =~= segs);
    }
}

/// A root-relative path joined against any root is canonical.
pub proof fn lemma_join_canonical(root: Seq<char>, rel: Seq<char>)
    ensures
        is_canonical(join(root, rel)),
{
    if rel.len() > 0 && rel[0] == '/' {
        lemma_normalize_canonical(rel);
    } else {
        lemma_normalize_canonical(root + seq!['/'] + rel);
    }
}

fn push_segment_exec(stack: &mut Vec<String>, seg: &str)
    ensures
        views(final(stack)@) == push_segment(views(old(stack)@), seg@),
{
    let n = seg.unicode_len();
    let dot = n == 1 && seg.get_char(0) == '.';
    let dotdot = n == 2 && seg.get_char(0) == '.' && seg.get_char(1) == '.';
    proof {
        if n == 1 && seg@[0] == '.' {
            assert(seg@ =~= seq!['.']);
        }
        if n == 2 && seg@[0] == '.' && seg@[1] == '.' {
            assert(seg@ =~= seq!['.', '.']);
        }
    }
    if n == 0 || dot {
    } else if dotdot {
        if stack.len() > 0 {
            stack.pop();
            assert(views(stack@) =~= views(old(stack)@).drop_last());
        }
    } else {
        stack.push(String::from_str(seg));
        assert(views(stack@) =~= views(old(stack)@).push(seg@));
    }
}

/// The normalised segments of `s`.
pub fn segments(s: &str) -> (r: Vec<String>)
    ensures
        views(r@) == segments_of(s@),
{
    let n = s.unicode_len();
    let mut stack: Vec<String> = Vec::new();
    let mut start: usize = 0;
    let mut i: usize = 0;
    assert(s@.subrange(0, 0) =~= Seq::<char>::empty());
    assert(views(stack@) =~= Seq::<Seq<char>>::empty());
    while i < n
        invariant
            n == s@.len(),
            start <= i <= n,
            scan(s@.subrange(0, i as int)).0 == views(stack@),
            scan(s@.subrange(0, i as int)).1 == s@.subrange(start as int, i as int),
        decreases n - i,
    {
        let c = s.get_char(i);
        assert(s@.subrange(0, i + 1).drop_last() =~= s@.subrange(0, i as int));
        assert(s@.subrange(0, i + 1).last() == c);
        if c == '/' {
            let seg = s.substring_char(start, i);
            push_segment_exec(&mut stack, seg);
            start = i + 1;
            assert(s@.subrange(start as int, start as int) =~= Seq::<char>::empty());
        } else {
            assert(s@.subrange(start as int, i + 1) =~= s@.subrange(start as int, i as int).push(c));
        }
        i = i + 1;
    }
    assert(s@.subrange(0, n as int) =~= s@);
    let seg = s.substring_char(start, n);
    push_segment_exec(&mut stack, seg);
    stack
}

/// The canonical rendering of a list of segments.
pub fn render_exec(segs: &Vec<String>) -> (r: String)
    ensures
        r@ == render(views(segs@)),
{
    if segs.len() == 0 {
        proof {
            reveal_strlit("/");
        }
        assert("/"@ =~= seq!['/']);
        return String::from_str("/");
    }
    let mut out = String::new();
    let mut i: usize = 0;
    assert(views(segs@.subrange(0, 0)) =~= Seq::<Seq<char>>::empty());
    while i < segs.len()
        invariant
            i <= segs@.len(),
            out@ == render_segments(views(segs@.subrange(0, i as int))),
        decreases segs.len() - i,
    {
        proof {
            reveal_strlit("/");
        }
        out.append("/");
        out.append(segs[i].as_str());
        let ghost next = views(segs@.subrange(0, i + 1));
        assert(next.drop_last() =~= views(segs@.subrange(0, i as int)));
        assert(next.last() == segs@[i as int]@);
        assert("/"@ =~= seq!['/']);
        i = i + 1;
    }
    assert(segs@.subrange(0, segs.len() as int) =~= segs@);
    out
}

/// The canonical form of `s`.
pub fn normalize_exec(s: &str) -> (r: String)
    ensures
        r@ == normalize(s@),
{
    let segs = segments(s);
    render_exec(&segs)
}

/// `rel` resolved against `root` and normalised.
pub fn join_exec(root: &str, rel: &str) -> (r: String)
    ensures
        r@ == join(root@, rel@),
{
    if rel.unicode_len() > 0 && rel.get_char(0) == '/' {
        normalize_exec(rel)
    } else {
        let mut whole = String::from_str(root);
        proof {
            reveal_strlit("/");
        }
        whole.append("/");
        whole.append(rel);
        assert("/"@ =~= seq!['/']);
        normalize_exec(whole.as_str())
    }
}

/// Whether `d` is `p` or a directory above it, on segment boundaries.
pub fn is_ancestor_path(d: &str, p: &str) -> (r: bool)
    ensures
        r == is_segment_ancestor(d@, p@),
{
    let dn = d.unicode_len();
    let pn = p.unicode_len();
    if dn > pn {
        return false;
    }
    let mut i: usize = 0;
    while i < dn
        invariant
            dn == d@.len(),
            pn == p@.len(),
            dn <= pn,
            i <= dn,
            forall|j: int| 0 <= j < i ==> d@[j] == p@[j],
        decreases dn - i,
    {
        if d.get_char(i) != p.get_char(i) {
            assert(p@.subrange(0, dn as int)[i as int] == p@[i as int]);
            return false;
        }
        i = i + 1;
    }
    assert(p@.subrange(0, dn as int) =~= d@);
    dn == pn || (dn > 0 && d.get_char(dn - 1) == '/') || p.get_char(dn) == '/'
}

} // verus!
