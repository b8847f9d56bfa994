//! Rebasing the image paths of a library onto the folder that holds it.
use vstd::prelude::*;
use crate::model::str_eq;
use crate::text::push_char;

verus! {

/// The parts of `p` between its '/' separators, empty parts included:
/// "a//b/" has the parts "a", "", "b" and "".
pub open spec fn split_segments(p: Seq<char>) -> Seq<Seq<char>>
    decreases p.len(),
{
    if p.len() == 0 {
        seq![Seq::empty()]
    } else {
        let init = split_segments(p.drop_last());
        if p.last() == '/' {
            init.push(Seq::empty())
        } else {
            init.update(init.len() - 1, init.last().push(p.last()))
        }
    }
}

/// Whether a part of a path names a file or folder: it is neither empty nor
/// ".". These are the parts that `Path::components` reports after the root.
pub open spec fn is_named_segment(s: Seq<char>) -> bool {
    s.len() > 0 && s != "."@
}

/// The named parts of `p`, in order.
pub open spec fn path_components(p: Seq<char>) -> Seq<Seq<char>> {
    split_segments(p).filter(|s: Seq<char>| is_named_segment(s))
}

/// Whether a part names one of the folders in which iPhoto keeps image
/// files: "Modified" or "Originals".
pub open spec fn is_anchor(c: Seq<char>) -> bool {
    c == "Modified"@ || c == "Originals"@
}

/// The parts from the first "Modified" or "Originals" part on; none when
/// there is no such part.
pub open spec fn from_first_anchor(cs: Seq<Seq<char>>) -> Seq<Seq<char>>
    decreases cs.len(),
{
    if cs.len() == 0 {
        cs
    } else if is_anchor(cs[0]) {
        cs
    } else {
        from_first_anchor(cs.drop_first())
    }
}

/// `base` with the part `c` added as `PathBuf::push` adds a relative part:
/// behind a '/' unless `base` is empty or already ends with one.
pub open spec fn path_push(base: Seq<char>, c: Seq<char>) -> Seq<char> {
    if base.len() == 0 || base.last() == '/' {
        base + c
    } else {
        base.push('/') + c
    }
}

/// `base` with each of `cs` added in turn.
pub open spec fn push_all(base: Seq<char>, cs: Seq<Seq<char>>) -> Seq<char>
    decreases cs.len(),
{
    if cs.len() == 0 {
        base
    } else {
        path_push(push_all(base, cs.drop_last()), cs.last())
    }
}

/// The path of an image file below the folder `base` of the library: the
/// parts of `original` from its first "Modified" or "Originals" part on,
/// added to `base`.
pub open spec fn fixed_path(base: Seq<char>, original: Seq<char>) -> Seq<char> {
    push_all(base, from_first_anchor(path_components(original)))
}

proof fn lemma_split_nonempty(p: Seq<char>)
    ensures
        split_segments(p).len() >= 1,
    decreases p.len(),
{
    if p.len() > 0 {
        lemma_split_nonempty(p.drop_last());
    }
}

proof fn lemma_from_first_anchor_push(cs: Seq<Seq<char>>, x: Seq<char>)
    ensures
        from_first_anchor(cs.push(x)) == (if from_first_anchor(cs).len() > 0 {
            from_first_anchor(cs).push(x)
        } else if is_anchor(x) {
            seq![x]
        } else {
            Seq::<Seq<char>>::empty()
        }),
    decreases cs.len(),
{
    if cs.len() == 0 {
        assert(cs.push(x).drop_first() =~= cs);
        assert(cs.push(x) =~= seq![x]);
    } else {
        assert(cs.push(x)[0] == cs[0]);
        if !is_anchor(cs[0]) {
            assert(cs.push(x).drop_first() =~= cs.drop_first().push(x));
            lemma_from_first_anchor_push(cs.drop_first(), x);
        }
    }
}

/// Adds the part `seg` to `result` when it is named and an anchor has been
/// met, or it is one.
fn take_segment(result: &mut String, ends_with_sep: &mut bool, found: &mut bool, seg: &String)
    requires
        *old(ends_with_sep) == (old(result)@.len() > 0 && old(result)@.last() == '/'),
        forall|j: int| 0 <= j < seg@.len() ==> seg@[j] != '/',
    ensures
        *final(ends_with_sep) == (final(result)@.len() > 0 && final(result)@.last() == '/'),
        if is_named_segment(seg@) && (*old(found) || is_anchor(seg@)) {
            &&& *final(found)
            &&& final(result)@ == path_push(old(result)@, seg@)
        } else {
            &&& *final(found) == *old(found)
            &&& final(result)@ == old(result)@
        },
{
    if seg.as_str().is_empty() || str_eq(seg, ".") {
        return;
    }
    if *found || str_eq(seg, "Modified") || str_eq(seg, "Originals") {
        *found = true;
        if !result.as_str().is_empty() && !*ends_with_sep {
            push_char(result, '/');
        }
        result.append(seg.as_str());
        *ends_with_sep = false;
        proof {
            assert(seg@.len() > 0);
            assert(seg@.last() != '/');
        }
    }
}

/// The path of an image file below the folder `base_path` of the library:
/// the parts of `original_path`, as iPhoto recorded it, from its first
/// "Modified" or "Originals" part on, added to `base_path`.
pub fn fix_path(base_path: &str, original_path: &str) -> (r: String)
    ensures
        r@ == fixed_path(base_path@, original_path@),
{
    let mut result = String::from_str(base_path);
    let mut ends_with_sep = false;
    for c in it: base_path.chars()
        invariant
            it.seq() == base_path@,
            ends_with_sep == (it.index() > 0 && base_path@[it.index() - 1] == '/'),
    {
        ends_with_sep = c == '/';
    }
    let mut found = false;
    let mut cur = String::new();
    let ghost orig = original_path@;
    proof {
        assert(split_segments(orig.take(0)) =~= seq![Seq::<char>::empty()]);
        reveal(Seq::filter);
        assert(split_segments(orig.take(0)).drop_last() =~= Seq::<Seq<char>>::empty());
    }
    for c in it: original_path.chars()
        invariant
            it.seq() == orig,
            ends_with_sep == (result@.len() > 0 && result@.last() == '/'),
            cur@ == split_segments(orig.take(it.index())).last(),
            forall|j: int| 0 <= j < cur@.len() ==> cur@[j] != '/',
            found == (from_first_anchor(
                split_segments(orig.take(it.index())).drop_last().filter(
                    |s: Seq<char>| is_named_segment(s),
                ),
            ).len() > 0),
            result@ == push_all(
                base_path@,
                from_first_anchor(
                    split_segments(orig.take(it.index())).drop_last().filter(
                        |s: Seq<char>| is_named_segment(s),
                    ),
                ),
            ),
    {
        let ghost q = orig.take(it.index());
        let ghost q2 = orig.take(it.index() + 1);
        proof {
            assert(q2.drop_last() =~= q);
            assert(q2.last() == c);
            lemma_split_nonempty(q);
        }
        if c == '/' {
            let ghost done = split_segments(q).drop_last().filter(|s: Seq<char>| is_named_segment(s));
            take_segment(&mut result, &mut ends_with_sep, &mut found, &cur);
            cur = String::new();
            proof {
                reveal(Seq::filter);
                let segs = split_segments(q);
                assert(split_segments(q2) == segs.push(Seq::<char>::empty()));
                assert(split_segments(q2).drop_last() =~= segs);
                assert(segs.drop_last().push(segs.last()) =~= segs);
                let done2 = segs.filter(|s: Seq<char>| is_named_segment(s));
                lemma_from_first_anchor_push(done, segs.last());
                if is_named_segment(segs.last()) {
                    assert(done2 == done.push(segs.last()));
                    let f = from_first_anchor(done);
                    let f2 = from_first_anchor(done2);
                    if f.len() > 0 {
                        assert(f2.drop_last() =~= f);
                    } else if is_anchor(segs.last()) {
                        assert(f =~= Seq::<Seq<char>>::empty());
                        assert(f2.drop_last() =~= f);
                    }
                } else {
                    assert(done2 == done);
                }
            }
        } else {
            push_char(&mut cur, c);
            proof {
                let segs = split_segments(q);
                assert(split_segments(q2) == segs.update(segs.len() - 1, segs.last().push(c)));
                assert(split_segments(q2).drop_last() =~= segs.drop_last());
            }
        }
    }
    proof {
        assert(orig.take(orig.len() as int) =~= orig);
        lemma_split_nonempty(orig);
    }
    let ghost done = split_segments(orig).drop_last().filter(|s: Seq<char>| is_named_segment(s));
    take_segment(&mut result, &mut ends_with_sep, &mut found, &cur);
    proof {
        reveal(Seq::filter);
        let segs = split_segments(orig);
        assert(segs.drop_last().push(segs.last()) =~= segs);
        let done2 = segs.filter(|s: Seq<char>| is_named_segment(s));
        lemma_from_first_anchor_push(done, segs.last());
        if is_named_segment(segs.last()) {
            assert(done2 == done.push(segs.last()));
            let f = from_first_anchor(done);
            let f2 = from_first_anchor(done2);
            if f.len() > 0 {
                assert(f2.drop_last() =~= f);
            } else if is_anchor(segs.last()) {
                assert(f =~= Seq::<Seq<char>>::empty());
                assert(f2.drop_last() =~= f);
            }
        } else {
            assert(done2 == done);
        }
    }
    result
}

proof fn lemma_push_all_prefix(base: Seq<char>, cs: Seq<Seq<char>>)
    ensures
        base.len() <= push_all(base, cs).len(),
        push_all(base, cs).take(base.len() as int) == base,
    decreases cs.len(),
{
    if cs.len() > 0 {
        lemma_push_all_prefix(base, cs.drop_last());
        let prev = push_all(base, cs.drop_last());
        let next = push_all(base, cs);
        assert(next.take(prev.len() as int) =~= prev);
        assert(next.take(base.len() as int) =~= prev.take(base.len() as int));
    }
}

proof fn lemma_no_anchor(cs: Seq<Seq<char>>)
    requires
        forall|i: int| 0 <= i < cs.len() ==> !is_anchor(#[trigger] cs[i]),
    ensures
        from_first_anchor(cs).len() == 0,
    decreases cs.len(),
{
    if cs.len() > 0 {
        assert(!is_anchor(cs[0]));
        assert forall|i: int| 0 <= i < cs.drop_first().len() implies !is_anchor(
            #[trigger] cs.drop_first()[i],
        ) by {
            assert(cs.drop_first()[i] == cs[i + 1]);
        }
        lemma_no_anchor(cs.drop_first());
    }
}

/// A rebased path starts with the folder it was rebased onto.
pub proof fn law_fixed_path_starts_with_base(base: Seq<char>, original: Seq<char>)
    ensures
        base.len() <= fixed_path(base, original).len(),
        fixed_path(base, original).take(base.len() as int) == base,
{
    lemma_push_all_prefix(base, from_first_anchor(path_components(original)));
}

/// A path with no "Modified" or "Originals" part is rebased onto the folder
/// itself.
pub proof fn law_fixed_path_without_anchor(base: Seq<char>, original: Seq<char>)
    requires
        forall|i: int|
            0 <= i < path_components(original).len() ==> !is_anchor(
                #[trigger] path_components(original)[i],
            ),
    ensures
        fixed_path(base, original) == base,
{
    lemma_no_anchor(path_components(original));
    assert(from_first_anchor(path_components(original)) =~= Seq::<Seq<char>>::empty());
}

/// Whether `s` holds no '/'.
spec fn sep_free(s: Seq<char>) -> bool {
    forall|j: int| 0 <= j < s.len() ==> s[j] != '/'
}

/// Whether each of `cs` is a named part without a '/', as the parts of a
/// path are.
spec fn parts_ok(cs: Seq<Seq<char>>) -> bool {
    forall|i: int| 0 <= i < cs.len() ==> is_named_segment(#[trigger] cs[i]) && sep_free(cs[i])
}

proof fn lemma_split_sep_free(p: Seq<char>)
    ensures
        forall|i: int| 0 <= i < split_segments(p).len() ==> sep_free(#[trigger] split_segments(p)[i]),
    decreases p.len(),
{
    if p.len() > 0 {
        let init = split_segments(p.drop_last());
        lemma_split_sep_free(p.drop_last());
        lemma_split_nonempty(p.drop_last());
        if p.last() != '/' {
            let l = init.last().push(p.last());
            assert(sep_free(init[init.len() - 1]));
            assert(sep_free(l));
        }
    }
}

proof fn lemma_components_ok(p: Seq<char>)
    ensures
        parts_ok(path_components(p)),
{
    let segs = split_segments(p);
    let pred = |s: Seq<char>| is_named_segment(s);
    lemma_split_sep_free(p);
    assert forall|i: int| 0 <= i < path_components(p).len() implies is_named_segment(
        #[trigger] path_components(p)[i],
    ) && sep_free(path_components(p)[i]) by {
        segs.lemma_filter_pred(pred, i);
        segs.lemma_filter_contains_rev(pred, segs.filter(pred)[i]);
    }
}

/// Appending chars without a '/' to a path extends its last part.
proof fn lemma_split_append(x: Seq<char>, s: Seq<char>)
    requires
        sep_free(s),
    ensures
        split_segments(x + s) == split_segments(x).update(
            split_segments(x).len() - 1,
            split_segments(x).last() + s,
        ),
    decreases s.len(),
{
    lemma_split_nonempty(x);
    if s.len() == 0 {
        assert(x + s =~= x);
        assert(split_segments(x).last() + s =~= split_segments(x).last());
        assert(split_segments(x).update(split_segments(x).len() - 1, split_segments(x).last())
            =~= split_segments(x));
    } else {
        let s0 = s.drop_last();
        assert(sep_free(s0));
        lemma_split_append(x, s0);
        assert((x + s).drop_last() =~= x + s0);
        assert((x + s).last() == s.last());
        assert(s[s.len() - 1] != '/');
        assert(split_segments(x).last() + s =~= (split_segments(x).last() + s0).push(s.last()));
        assert(split_segments(x + s) =~= split_segments(x).update(
            split_segments(x).len() - 1,
            split_segments(x).last() + s,
        ));
    }
}

proof fn lemma_components_push(x: Seq<char>, c: Seq<char>)
    requires
        is_named_segment(c),
        sep_free(c),
    ensures
        path_components(path_push(x, c)) == path_components(x).push(c),
{
    reveal(Seq::filter);
    let pred = |s: Seq<char>| is_named_segment(s);
    lemma_split_nonempty(x);
    if x.len() == 0 || x.last() == '/' {
        lemma_split_append(x, c);
        let segs = split_segments(x);
        if x.len() == 0 {
            assert(segs =~= seq![Seq::<char>::empty()]);
        } else {
            assert(x.drop_last().push('/') =~= x);
        }
        assert(segs.last() =~= Seq::<char>::empty());
        let d = segs.drop_last();
        assert(segs =~= d.push(Seq::<char>::empty()));
        assert(segs.last() + c =~= c);
        assert(split_segments(x + c) =~= d.push(c));
        assert(d.push(c).drop_last() =~= d);
        assert(d.push(Seq::<char>::empty()).drop_last() =~= d);
        assert(path_components(x) == d.filter(pred));
    } else {
        let y = x.push('/');
        assert(y.drop_last() =~= x);
        lemma_split_append(y, c);
        let segs = split_segments(y);
        assert(segs == split_segments(x).push(Seq::<char>::empty()));
        assert(segs.last() + c =~= c);
        assert(split_segments(y + c) =~= split_segments(x).push(c));
        assert(split_segments(x).push(c).drop_last() =~= split_segments(x));
    }
}

proof fn lemma_components_push_all(b: Seq<char>, ks: Seq<Seq<char>>)
    requires
        parts_ok(ks),
    ensures
        path_components(push_all(b, ks)) == path_components(b) + ks,
    decreases ks.len(),
{
    if ks.len() == 0 {
        assert(path_components(b) + ks =~= path_components(b));
    } else {
        let k0 = ks.drop_last();
        assert(parts_ok(k0)) by {
            assert forall|i: int| 0 <= i < k0.len() implies is_named_segment(#[trigger] k0[i])
                && sep_free(k0[i]) by {
                assert(k0[i] == ks[i]);
            }
        }
        lemma_components_push_all(b, k0);
        assert(is_named_segment(ks[ks.len() - 1]) && sep_free(ks[ks.len() - 1]));
        lemma_components_push(push_all(b, k0), ks.last());
        assert(path_components(b) + ks =~= (path_components(b) + k0).push(ks.last()));
    }
}

proof fn lemma_from_first_anchor_suffix(cs: Seq<Seq<char>>) -> (k: int)
    ensures
        0 <= k <= cs.len(),
        from_first_anchor(cs) == cs.subrange(k, cs.len() as int),
        from_first_anchor(cs).len() > 0 ==> is_anchor(from_first_anchor(cs)[0]),
    decreases cs.len(),
{
    if cs.len() == 0 {
        assert(cs.subrange(0, 0) =~= cs);
        0
    } else if is_anchor(cs[0]) {
        assert(cs.subrange(0, cs.len() as int) =~= cs);
        0
    } else {
        let k = lemma_from_first_anchor_suffix(cs.drop_first());
        assert(cs.drop_first().subrange(k, cs.drop_first().len() as int) =~= cs.subrange(
            k + 1,
            cs.len() as int,
        ));
        k + 1
    }
}

proof fn lemma_from_first_anchor_skips(a: Seq<Seq<char>>, ks: Seq<Seq<char>>)
    requires
        forall|i: int| 0 <= i < a.len() ==> !is_anchor(#[trigger] a[i]),
    ensures
        from_first_anchor(a + ks) == from_first_anchor(ks),
    decreases a.len(),
{
    if a.len() == 0 {
        assert(a + ks =~= ks);
    } else {
        assert((a + ks)[0] == a[0]);
        assert((a + ks).drop_first() =~= a.drop_first() + ks);
        assert forall|i: int| 0 <= i < a.drop_first().len() implies !is_anchor(
            #[trigger] a.drop_first()[i],
        ) by {
            assert(a.drop_first()[i] == a[i + 1]);
        }
        lemma_from_first_anchor_skips(a.drop_first(), ks);
    }
}

/// Rebasing twice is rebasing once: a path rebased onto a folder `b2` with
/// no "Modified" or "Originals" part, then rebased onto `b`, is the path
/// rebased onto `b` directly. In particular a rebased path is left as it is
/// when it is rebased again onto the same folder, if that folder has no such
/// part.
pub proof fn law_fixed_path_rebase_twice(b: Seq<char>, b2: Seq<char>, p: Seq<char>)
    requires
        forall|i: int|
            0 <= i < path_components(b2).len() ==> !is_anchor(#[trigger] path_components(b2)[i]),
    ensures
        fixed_path(b, fixed_path(b2, p)) == fixed_path(b, p),
{
    let a = from_first_anchor(path_components(p));
    lemma_components_ok(p);
    let k = lemma_from_first_anchor_suffix(path_components(p));
    assert(parts_ok(a)) by {
        assert forall|i: int| 0 <= i < a.len() implies is_named_segment(#[trigger] a[i])
            && sep_free(a[i]) by {
            assert(a[i] == path_components(p)[i + k]);
        }
    }
    lemma_components_push_all(b2, a);
    lemma_from_first_anchor_skips(path_components(b2), a);
    if a.len() > 0 {
        assert(is_anchor(a[0]));
    }
}

proof fn lemma_from_first_anchor_at(cs: Seq<Seq<char>>, i: int)
    requires
        0 <= i <= cs.len(),
        i < cs.len() ==> (cs[i] == "Modified"@ || cs[i] == "Originals"@),
        forall|j: int| 0 <= j < i ==> #[trigger] cs[j] != "Modified"@ && cs[j] != "Originals"@,
    ensures
        from_first_anchor(cs) == cs.subrange(i, cs.len() as int),
    decreases i,
{
    if i == 0 {
        assert(cs.subrange(0, cs.len() as int) =~= cs);
    } else {
        assert(cs[0] != "Modified"@ && cs[0] != "Originals"@);
        let t = cs.drop_first();
        assert forall|j: int| 0 <= j < i - 1 implies #[trigger] t[j] != "Modified"@ && t[j]
            != "Originals"@ by {
            assert(t[j] == cs[j + 1]);
        }
        if i < cs.len() {
            assert(t[i - 1] == cs[i]);
        }
        lemma_from_first_anchor_at(t, i - 1);
        assert(t.subrange(i - 1, t.len() as int) =~= cs.subrange(i, cs.len() as int));
    }
}

/// A path is rebased from its first part named "Modified" or "Originals"
/// on: when that is its part `i`, the rebased path is `base` with the parts
/// from `i` on added; when it has no such part, it is `base` itself.
pub proof fn law_fixed_path_from_first_modified_or_originals(base: Seq<char>, p: Seq<char>, i: int)
    requires
        0 <= i <= path_components(p).len(),
        i < path_components(p).len() ==> (path_components(p)[i] == "Modified"@
            || path_components(p)[i] == "Originals"@),
        forall|j: int|
            0 <= j < i ==> #[trigger] path_components(p)[j] != "Modified"@ && path_components(p)[j]
                != "Originals"@,
    ensures
        fixed_path(base, p) == push_all(
            base,
            path_components(p).subrange(i, path_components(p).len() as int),
        ),
        i == path_components(p).len() ==> fixed_path(base, p) == base,
{
    let cs = path_components(p);
    lemma_from_first_anchor_at(cs, i);
    if i == cs.len() {
        assert(cs.subrange(i, cs.len() as int) =~= Seq::<Seq<char>>::empty());
    }
}

/// `base` with `part` added as `PathBuf::push` adds it on Unix: an absolute
/// `part` takes the place of `base`, a relative one is added behind a '/'.
pub open spec fn joined_path(base: Seq<char>, part: Seq<char>) -> Seq<char> {
    if part.len() > 0 && part[0] == '/' {
        part
    } else {
        path_push(base, part)
    }
}

/// `base` with `part` added as `PathBuf::push` adds it on Unix.
pub fn path_join(base: &str, part: &str) -> (r: String)
    ensures
        r@ == joined_path(base@, part@),
{
    let mut starts_with_sep = false;
    let mut first = true;
    for c in it: part.chars()
        invariant
            it.seq() == part@,
            first == (it.index() == 0),
            starts_with_sep == (it.index() > 0 && part@[0] == '/'),
    {
        if first {
            starts_with_sep = c == '/';
            first = false;
        }
    }
    if starts_with_sep {
        return String::from_str(part);
    }
    let mut ends_with_sep = false;
    for c in it: base.chars()
        invariant
            it.seq() == base@,
            ends_with_sep == (it.index() > 0 && base@[it.index() - 1] == '/'),
    {
        ends_with_sep = c == '/';
    }
    let mut r = String::from_str(base);
    if !r.as_str().is_empty() && !ends_with_sep {
        push_char(&mut r, '/');
    }
    r.append(part);
    r
}

/// The last named part of `p`, as `Path::file_name` gives it: none when `p`
/// has no named part or ends with "..".
pub open spec fn file_name(p: Seq<char>) -> Option<Seq<char>> {
    let cs = path_components(p);
    if cs.len() > 0 && cs.last() != ".."@ {
        Some(cs.last())
    } else {
        None
    }
}

/// The last of the named parts that `segs` holds.
spec fn last_named(segs: Seq<Seq<char>>) -> Option<Seq<char>> {
    let cs = segs.filter(|s: Seq<char>| is_named_segment(s));
    if cs.len() > 0 {
        Some(cs.last())
    } else {
        None
    }
}

proof fn lemma_last_named_push(segs: Seq<Seq<char>>, s: Seq<char>)
    ensures
        last_named(segs.push(s)) == (if is_named_segment(s) {
            Some(s)
        } else {
            last_named(segs)
        }),
{
    reveal(Seq::filter);
    assert(segs.push(s).drop_last() =~= segs);
}

/// The file name of the path `path`: its last named part, unless it has
/// none or the last one is "..".
pub fn image_file_name(path: &str) -> (r: Option<String>)
    ensures
        crate::model::opt_view(r) == file_name(path@),
{
    let mut last: Option<String> = None;
    let mut cur = String::new();
    let ghost p = path@;
    proof {
        assert(split_segments(p.take(0)) =~= seq![Seq::<char>::empty()]);
        reveal(Seq::filter);
        assert(split_segments(p.take(0)).drop_last() =~= Seq::<Seq<char>>::empty());
    }
    for c in it: path.chars()
        invariant
            it.seq() == p,
            cur@ == split_segments(p.take(it.index())).last(),
            crate::model::opt_view(last) == last_named(split_segments(p.take(it.index())).drop_last()),
    {
        let ghost q = p.take(it.index());
        let ghost q2 = p.take(it.index() + 1);
        proof {
            assert(q2.drop_last() =~= q);
            assert(q2.last() == c);
            lemma_split_nonempty(q);
        }
        if c == '/' {
            proof {
                let segs = split_segments(q);
                assert(split_segments(q2) == segs.push(Seq::<char>::empty()));
                assert(split_segments(q2).drop_last() =~= segs);
                assert(segs.drop_last().push(segs.last()) =~= segs);
                lemma_last_named_push(segs.drop_last(), segs.last());
            }
            if !cur.as_str().is_empty() && !str_eq(&cur, ".") {
                last = Some(cur);
            }
            cur = String::new();
        } else {
            push_char(&mut cur, c);
            proof {
                let segs = split_segments(q);
                assert(split_segments(q2) == segs.update(segs.len() - 1, segs.last().push(c)));
                assert(split_segments(q2).drop_last() =~= segs.drop_last());
            }
        }
    }
    proof {
        assert(p.take(p.len() as int) =~= p);
        lemma_split_nonempty(p);
        let segs = split_segments(p);
        assert(segs.drop_last().push(segs.last()) =~= segs);
        lemma_last_named_push(segs.drop_last(), segs.last());
    }
    if !cur.as_str().is_empty() && !str_eq(&cur, ".") {
        last = Some(cur);
    }
    match last {
        Some(name) => {
            if str_eq(&name, "..") {
                None
            } else {
                Some(name)
            }
        },
        None => None,
    }
}

} // verus!
