//! Structural path resolution: an anchor absolute path plus a sequence of
//! navigation tokens (plain names and the up-directory marker `..`) resolve
//! to one normalized absolute path. `..` is a pop on a logical segment list,
//! never a textual search-and-cut.
use vstd::prelude::*;

verus! {

/// The up-directory marker, as a sequence of characters.
pub open spec fn up_token() -> Seq<char> {
    seq!['.', '.']
}

/// The plain segments left after applying every token in order: a plain name
/// is appended, `..` removes the most recently appended name (and is counted
/// by `norm_ups` when no name is left to remove).
pub open spec fn norm_segs(tokens: Seq<Seq<char>>) -> Seq<Seq<char>>
    decreases tokens.len(),
{
    if tokens.len() == 0 {
        Seq::empty()
    } else {
        let prev = norm_segs(tokens.drop_last());
        if tokens.last() == up_token() {
            if prev.len() > 0 {
                prev.drop_last()
            } else {
                prev
            }
        } else {
            prev.push(tokens.last())
        }
    }
}

/// How many `..` tokens were left with no appended name to remove: each one
/// strips one trailing segment from the anchor itself.
pub open spec fn norm_ups(tokens: Seq<Seq<char>>) -> nat
    decreases tokens.len(),
{
    if tokens.len() == 0 {
        0
    } else if tokens.last() == up_token() && norm_segs(tokens.drop_last()).len() == 0 {
        norm_ups(tokens.drop_last()) + 1
    } else {
        norm_ups(tokens.drop_last())
    }
}

/// The segments of the absolute path that the tokens denote below (or above)
/// the anchor's segments.
pub open spec fn resolved_segments(anchor: Seq<Seq<char>>, tokens: Seq<Seq<char>>) -> Seq<
    Seq<char>,
>
    recommends
        norm_ups(tokens) <= anchor.len(),
{
    anchor.take(anchor.len() - norm_ups(tokens)) + norm_segs(tokens)
}

/// Renders segments as an absolute path string: `/` followed by the segments
/// separated by `/`; no segments at all render as the root `/`.
pub open spec fn joined(segs: Seq<Seq<char>>) -> Seq<char>
    decreases segs.len(),
{
    if segs.len() == 0 {
        Seq::empty()
    } else {
        joined(segs.drop_last()) + seq!['/'] + segs.last()
    }
}

/// The absolute path string for a segment list.
pub open spec fn path_string(segs: Seq<Seq<char>>) -> Seq<char> {
    if segs.len() == 0 {
        seq!['/']
    } else {
        joined(segs)
    }
}

/// Whether an executable token equals the up-directory marker.
pub fn is_up_token(t: &String) -> (r: bool)
    ensures
        r == (t@ == up_token()),
{
    proof {
        reveal_strlit("..");
    }
    let up: String = "..".to_owned();
    assert(up@ =~= up_token());
    *t == up
}

/// A segment is kept when splitting a path string: separators produce no
/// empty segments, and a lone `.` names the directory itself and is dropped.
pub open spec fn keep_segment(seg: Seq<char>) -> bool {
    seg.len() > 0 && seg != seq!['.']
}

/// The segment list a finished run of non-separator characters contributes.
pub open spec fn flushed(cur: Seq<char>) -> Seq<Seq<char>> {
    if keep_segment(cur) {
        seq![cur]
    } else {
        Seq::empty()
    }
}

/// The segments of `s` from position `i` on, with `cur` the run of
/// characters read since the last separator.
pub open spec fn split_from(s: Seq<char>, i: int, cur: Seq<char>) -> Seq<Seq<char>>
    decreases s.len() - i,
{
    if i < 0 || i >= s.len() {
        flushed(cur)
    } else if s[i] == '/' {
        flushed(cur) + split_from(s, i + 1, Seq::empty())
    } else {
        split_from(s, i + 1, cur.push(s[i]))
    }
}

/// The tokens of a path string: the maximal runs between `/` separators,
/// with empty runs and `.` dropped.
pub open spec fn path_tokens(s: Seq<char>) -> Seq<Seq<char>> {
    split_from(s, 0, Seq::empty())
}

fn push_flushed(out: &mut Vec<String>, s: &str, start: usize, end: usize)
    requires
        start <= end <= s@.len(),
    ensures
        final(out).deep_view() == old(out).deep_view() + flushed(s@.subrange(start as int, end as int)),
{
    let ghost cur = s@.subrange(start as int, end as int);
    if start < end {
        let seg = s.substring_char(start, end).to_owned();
        let dot: String = ".".to_owned();
        proof {
            reveal_strlit(".");
            assert(dot@ =~= seq!['.']);
        }
        if seg == dot {
            proof {
                assert(out.deep_view() =~= old(out).deep_view() + flushed(cur));
            }
        } else {
            out.push(seg);
            proof {
                assert(out.deep_view() =~= old(out).deep_view() + flushed(cur));
            }
        }
    } else {
        proof {
            assert(out.deep_view() =~= old(out).deep_view() + flushed(cur));
        }
    }
}

/// Splits a path string into its tokens: the runs between `/` separators,
/// with empty runs and `.` dropped; `..` stays a token of its own.
pub fn split_path(s: &str) -> (r: Vec<String>)
    ensures
        r.deep_view() == path_tokens(s@),
{
    let n = s.unicode_len();
    let mut out: Vec<String> = Vec::new();
    let mut i: usize = 0;
    let mut start: usize = 0;
    proof {
        assert(s@.subrange(0, 0) =~= Seq::<char>::empty());
        assert(out.deep_view() =~= Seq::<Seq<char>>::empty());
    }
    while i < n
        invariant
            n == s@.len(),
            start <= i <= n,
            path_tokens(s@) == out.deep_view() + split_from(
                s@,
                i as int,
                s@.subrange(start as int, i as int),
            ),
        decreases n - i,
    {
        let c = s.get_char(i);
        if c == '/' {
            push_flushed(&mut out, s, start, i);
            start = i + 1;
            proof {
                assert(s@.subrange(start as int, i + 1) =~= Seq::<char>::empty());
            }
        } else {
            proof {
                assert(s@.subrange(start as int, i as int).push(s@[i as int]) =~= s@.subrange(
                    start as int,
                    i + 1,
                ));
            }
        }
        i += 1;
    }
    push_flushed(&mut out, s, start, n);
    out
}

/// Renders a segment list as an absolute path string.
pub fn join_path(segs: &Vec<String>) -> (r: String)
    ensures
        r@ == path_string(segs.deep_view()),
{
    proof {
        reveal_strlit("/");
    }
    if segs.len() == 0 {
        let r: String = "/".to_owned();
        proof {
            assert(r@ =~= seq!['/']);
        }
        r
    } else {
        let mut r = String::new();
        let mut i: usize = 0;
        proof {
            assert(segs.deep_view().take(0) =~= Seq::<Seq<char>>::empty());
        }
        while i < segs.len()
            invariant
                i <= segs@.len(),
                r@ == joined(segs.deep_view().take(i as int)),
            decreases segs@.len() - i,
        {
            r.append("/");
            r.append((&segs[i]).as_str());
            proof {
                reveal_strlit("/");
                assert(segs.deep_view().take(i + 1).drop_last() =~= segs.deep_view().take(
                    i as int,
                ));
                assert(segs.deep_view().take(i + 1).last() == segs@[i as int]@);
            }
            i += 1;
        }
        proof {
            assert(segs.deep_view().take(segs@.len() as int) =~= segs.deep_view());
        }
        r
    }
}

/// Applies the tokens to an empty logical stack: returns how many `..`
/// crossed above the start, and the plain segments that remain.
pub(crate) fn normalize_tokens(tokens: &Vec<String>) -> (r: (usize, Vec<String>))
    ensures
        r.0 == norm_ups(tokens.deep_view()),
        r.1.deep_view() == norm_segs(tokens.deep_view()),
{
    let ghost tv = tokens.deep_view();
    let mut ups: usize = 0;
    let mut segs: Vec<String> = Vec::new();
    let mut i: usize = 0;
    proof {
        assert(tv.take(0) =~= Seq::<Seq<char>>::empty());
        assert(segs.deep_view() =~= Seq::<Seq<char>>::empty());
    }
    while i < tokens.len()
        invariant
            i <= tokens@.len(),
            tv == tokens.deep_view(),
            ups <= i,
            ups == norm_ups(tv.take(i as int)),
            segs.deep_view() == norm_segs(tv.take(i as int)),
        decreases tokens@.len() - i,
    {
        let ghost prev = segs.deep_view();
        let t = &tokens[i];
        proof {
            assert(tv.take(i + 1).drop_last() =~= tv.take(i as int));
            assert(tv.take(i + 1).last() == t@);
        }
        if is_up_token(t) {
            if segs.len() > 0 {
                segs.pop();
                proof {
                    assert(segs.deep_view() =~= prev.drop_last());
                }
            } else {
                ups = ups + 1;
            }
        } else {
            segs.push(t.clone());
            proof {
                assert(segs.deep_view() =~= prev.push(t@));
            }
        }
        i += 1;
    }
    proof {
        assert(tv.take(tokens@.len() as int) =~= tv);
    }
    (ups, segs)
}

/// Resolves an anchor absolute path and a token sequence into one
/// normalized absolute path string: plain tokens descend below the anchor,
/// each unmatched `..` strips one trailing segment from the anchor itself.
pub fn resolve(anchor: &str, tokens: &Vec<String>) -> (r: String)
    requires
        norm_ups(tokens.deep_view()) <= path_tokens(anchor@).len(),
    ensures
        r@ == path_string(resolved_segments(path_tokens(anchor@), tokens.deep_view())),
{
    let mut base = split_path(anchor);
    let (ups, mut rel) = normalize_tokens(tokens);
    let ghost base0 = base.deep_view();
    let keep = base.len() - ups;
    base.truncate(keep);
    proof {
        assert(base.deep_view() =~= base0.take(keep as int));
    }
    let ghost trimmed = base.deep_view();
    base.append(&mut rel);
    proof {
        assert(base.deep_view() =~= trimmed + norm_segs(tokens.deep_view()));
    }
    join_path(&base)
}

/// Converts the anchor absolute path and a relative path string (as kept by
/// the navigation stack, e.g. `./a/b/` or `./../`) into one normalized
/// absolute path string.
pub fn convert_to_absolute_path(initial_path: String, relative_path: String) -> (r: String)
    requires
        norm_ups(path_tokens(relative_path@)) <= path_tokens(initial_path@).len(),
    ensures
        r@ == path_string(
            resolved_segments(path_tokens(initial_path@), path_tokens(relative_path@)),
        ),
{
    let tokens = split_path(relative_path.as_str());
    resolve(initial_path.as_str(), &tokens)
}

/// Builds the resolved segment vector for an anchor and a token sequence,
/// or nothing when the tokens cross further above the anchor than it has
/// segments.
pub fn resolve_under(anchor: &Vec<String>, tokens: &Vec<String>) -> (r: Option<Vec<String>>)
    ensures
        norm_ups(tokens.deep_view()) <= anchor.deep_view().len() ==> (r matches Some(v)
            && v.deep_view() == resolved_segments(anchor.deep_view(), tokens.deep_view())),
        norm_ups(tokens.deep_view()) > anchor.deep_view().len() ==> r is None,
{
    let (ups, mut segs) = normalize_tokens(tokens);
    if ups > anchor.len() {
        None
    } else {
        let mut base = anchor.clone();
        proof {
            assert(base.deep_view() =~= anchor.deep_view());
        }
        let ghost base0 = base.deep_view();
        base.truncate(anchor.len() - ups);
        proof {
            assert(base.deep_view() =~= base0.take(anchor.deep_view().len() - ups));
        }
        let ghost trimmed = base.deep_view();
        base.append(&mut segs);
        proof {
            assert(base.deep_view() =~= trimmed + norm_segs(tokens.deep_view()));
        }
        Some(base)
    }
}

/// Law: a descent token followed immediately by the up marker cancels out,
/// so resolving `tokens + [name, ..]` yields the very segments that
/// resolving `tokens` alone yields, under every anchor.
pub proof fn lemma_descend_then_up(
    anchor: Seq<Seq<char>>,
    tokens: Seq<Seq<char>>,
    name: Seq<char>,
)
    requires
        name != up_token(),
    ensures
        resolved_segments(anchor, tokens.push(name).push(up_token())) == resolved_segments(
            anchor,
            tokens,
        ),
{
    let t1 = tokens.push(name);
    let t2 = t1.push(up_token());
    assert(t2.drop_last() =~= t1);
    assert(t1.drop_last() =~= tokens);
    assert(norm_segs(t1) == norm_segs(tokens).push(name));
    assert(norm_segs(t2) =~= norm_segs(tokens));
    assert(norm_ups(t1) == norm_ups(tokens));
    assert(norm_ups(t2) == norm_ups(tokens));
}

/// No segment that normalization leaves behind is the up marker.
pub proof fn lemma_norm_segs_no_up(tokens: Seq<Seq<char>>)
    ensures
        forall|i: int|
            0 <= i < norm_segs(tokens).len() ==> #[trigger] norm_segs(tokens)[i] != up_token(),
    decreases tokens.len(),
{
    if tokens.len() > 0 {
        lemma_norm_segs_no_up(tokens.drop_last());
        let prev = norm_segs(tokens.drop_last());
        let cur = norm_segs(tokens);
        assert forall|i: int| 0 <= i < cur.len() implies #[trigger] cur[i] != up_token() by {
            if tokens.last() == up_token() {
                assert(cur[i] == prev[i]);
            } else if i < prev.len() {
                assert(cur[i] == prev[i]);
            } else {
                assert(cur[i] == tokens.last());
            }
        }
    }
}

/// Tokens that hold no up marker pass through normalization unchanged.
pub proof fn lemma_norm_no_up_identity(tokens: Seq<Seq<char>>)
    requires
        forall|i: int| 0 <= i < tokens.len() ==> #[trigger] tokens[i] != up_token(),
    ensures
        norm_segs(tokens) == tokens,
        norm_ups(tokens) == 0,
    decreases tokens.len(),
{
    if tokens.len() > 0 {
        lemma_norm_no_up_identity(tokens.drop_last());
        assert(norm_segs(tokens) =~= tokens);
    }
}

/// Law: normalization is idempotent; the segments it leaves behind
/// normalize to themselves, with no up marker left unresolved.
pub proof fn lemma_normalization_idempotent(tokens: Seq<Seq<char>>)
    ensures
        norm_segs(norm_segs(tokens)) == norm_segs(tokens),
        norm_ups(norm_segs(tokens)) == 0,
{
    lemma_norm_segs_no_up(tokens);
    lemma_norm_no_up_identity(norm_segs(tokens));
}

/// The canonical form of a token sequence after one normalization: the
/// unmatched up markers first, then the plain segments.
pub open spec fn canonical_stack(tokens: Seq<Seq<char>>) -> Seq<Seq<char>> {
    Seq::new(norm_ups(tokens), |i: int| up_token()) + norm_segs(tokens)
}

proof fn lemma_norm_of_up_run(k: nat)
    ensures
        norm_segs(Seq::new(k, |i: int| up_token())) == Seq::<Seq<char>>::empty(),
        norm_ups(Seq::new(k, |i: int| up_token())) == k,
    decreases k,
{
    if k > 0 {
        lemma_norm_of_up_run((k - 1) as nat);
        assert(Seq::new(k, |i: int| up_token()).drop_last() =~= Seq::new(
            (k - 1) as nat,
            |i: int| up_token(),
        ));
    } else {
        assert(Seq::new(0, |i: int| up_token()) =~= Seq::<Seq<char>>::empty());
    }
}

proof fn lemma_norm_append_names(a: Seq<Seq<char>>, b: Seq<Seq<char>>)
    requires
        forall|i: int| 0 <= i < b.len() ==> #[trigger] b[i] != up_token(),
    ensures
        norm_segs(a + b) == norm_segs(a) + b,
        norm_ups(a + b) == norm_ups(a),
    decreases b.len(),
{
    if b.len() == 0 {
        assert(a + b =~= a);
        assert(norm_segs(a) + b =~= norm_segs(a));
    } else {
        lemma_norm_append_names(a, b.drop_last());
        assert((a + b).drop_last() =~= a + b.drop_last());
        assert((a + b).last() == b.last());
        assert(norm_segs(a + b) =~= norm_segs(a) + b);
    }
}

/// Law: resolving a stack already in canonical form yields the very same
/// segments as resolving the original tokens; once normalized, resolution
/// changes nothing more, in whatever order the tokens were applied.
pub proof fn lemma_resolution_idempotent(anchor: Seq<Seq<char>>, tokens: Seq<Seq<char>>)
    ensures
        resolved_segments(anchor, canonical_stack(tokens)) == resolved_segments(anchor, tokens),
{
    let k = norm_ups(tokens);
    let reps = Seq::new(k, |i: int| up_token());
    lemma_norm_of_up_run(k);
    lemma_norm_segs_no_up(tokens);
    lemma_norm_append_names(reps, norm_segs(tokens));
    assert(Seq::<Seq<char>>::empty() + norm_segs(tokens) =~= norm_segs(tokens));
}

/// Law: resolution never leaves an unresolved up marker among the output
/// segments, so the rendered absolute path holds no dangling `..`.
pub proof fn lemma_no_dangling_up(anchor: Seq<Seq<char>>, tokens: Seq<Seq<char>>)
    requires
        norm_ups(tokens) <= anchor.len(),
        forall|i: int| 0 <= i < anchor.len() ==> #[trigger] anchor[i] != up_token(),
    ensures
        forall|i: int|
            0 <= i < resolved_segments(anchor, tokens).len()
                ==> #[trigger] resolved_segments(anchor, tokens)[i] != up_token(),
{
    lemma_norm_segs_no_up(tokens);
    let res = resolved_segments(anchor, tokens);
    let kept = anchor.take(anchor.len() - norm_ups(tokens));
    assert forall|i: int| 0 <= i < res.len() implies #[trigger] res[i] != up_token() by {
        if i < kept.len() {
            assert(res[i] == anchor[i]);
        } else {
            assert(res[i] == norm_segs(tokens)[i - kept.len()]);
        }
    }
}

} // verus!
