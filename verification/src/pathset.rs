//! Sets of paths kept in the order of `std::path::Path`: compared component
//! by component, with paths of equal components counted as one.

use vstd::prelude::*;
use crate::refs::{char_seq_lt, chars_lt, lemma_char_seq_lt_total, string_views};
use crate::text::{chars_eq, chars_of, last_index_of, lemma_last_index_of};

verus! {

/// A path component as `(kind, name)`: kind 0 is the root directory, 1 the
/// current directory (`.` at the start), 2 the parent directory (`..`), 3 a
/// normal component with its name. The kinds are ordered as the variants
/// of `std::path::Component`.
pub open spec fn segment_component(s: Seq<char>) -> Seq<(u8, Seq<char>)> {
    if s.len() == 0 || s == seq!['.'] {
        Seq::empty()
    } else if s == seq!['.', '.'] {
        seq![(2u8, Seq::<char>::empty())]
    } else {
        seq![(3u8, s)]
    }
}

/// The components of the `/`-separated segments of `p`: empty and `.`
/// segments give none.
pub open spec fn body_components(p: Seq<char>) -> Seq<(u8, Seq<char>)>
    decreases p.len(),
{
    match last_index_of(p, '/') {
        Some(i) => {
            proof {
                lemma_last_index_of(p, '/');
            }
            body_components(p.take(i)) + segment_component(p.skip(i + 1))
        },
        None => segment_component(p),
    }
}

/// The component before the segments: the root for an absolute path, the
/// current directory for `.` and paths starting with `./`.
pub open spec fn leading_component(p: Seq<char>) -> Seq<(u8, Seq<char>)> {
    if p.len() > 0 && p[0] == '/' {
        seq![(0u8, Seq::<char>::empty())]
    } else if p == seq!['.'] || (p.len() >= 2 && p[0] == '.' && p[1] == '/') {
        seq![(1u8, Seq::<char>::empty())]
    } else {
        Seq::empty()
    }
}

/// The components of a Unix path (`Path::components`).
pub open spec fn path_components(p: Seq<char>) -> Seq<(u8, Seq<char>)> {
    leading_component(p) + body_components(p)
}

/// The order of two components: by kind, then by name.
pub open spec fn component_lt(x: (u8, Seq<char>), y: (u8, Seq<char>)) -> bool {
    x.0 < y.0 || (x.0 == y.0 && char_seq_lt(x.1, y.1))
}

/// Lexicographic order on component sequences.
pub open spec fn components_lt(a: Seq<(u8, Seq<char>)>, b: Seq<(u8, Seq<char>)>) -> bool
    decreases a.len(),
{
    if a.len() == 0 {
        b.len() > 0
    } else if b.len() == 0 {
        false
    } else if a[0] == b[0] {
        components_lt(a.skip(1), b.skip(1))
    } else {
        component_lt(a[0], b[0])
    }
}

/// `Path` order: `a` comes before `b`.
pub open spec fn path_lt(a: Seq<char>, b: Seq<char>) -> bool {
    components_lt(path_components(a), path_components(b))
}

/// `Path` equality: the same components.
pub open spec fn same_path(a: Seq<char>, b: Seq<char>) -> bool {
    path_components(a) == path_components(b)
}

/// Each path comes before the next one.
pub open spec fn path_sorted(v: Seq<Seq<char>>) -> bool {
    forall|i: int| 0 <= i < v.len() - 1 ==> path_lt(#[trigger] v[i], v[i + 1])
}

/// Some path of `set` is the path `x`.
pub open spec fn has_same_path(set: Seq<Seq<char>>, x: Seq<char>) -> bool {
    exists|i: int| 0 <= i < set.len() && same_path(#[trigger] set[i], x)
}

/// How many paths at the front of `set` come before `x`.
pub open spec fn below_count(set: Seq<Seq<char>>, x: Seq<char>) -> int
    decreases set.len(),
{
    if set.len() == 0 {
        0
    } else if path_lt(set[0], x) {
        1 + below_count(set.skip(1), x)
    } else {
        0
    }
}

/// `set` with `x` added (`BTreeSet::insert`): unchanged when it holds the
/// same path already, else `x` placed before the first path not before it.
pub open spec fn path_set_insert(set: Seq<Seq<char>>, x: Seq<char>) -> Seq<Seq<char>> {
    if has_same_path(set, x) {
        set
    } else {
        set.insert(below_count(set, x), x)
    }
}

/// `set` with the paths of `items` added in order.
pub open spec fn path_set_insert_all(set: Seq<Seq<char>>, items: Seq<Seq<char>>) -> Seq<Seq<char>>
    decreases items.len(),
{
    if items.len() == 0 {
        set
    } else {
        path_set_insert(path_set_insert_all(set, items.drop_last()), items.last())
    }
}

/// Components as computed, taken by their views.
pub open spec fn component_views(v: Seq<(u8, Vec<char>)>) -> Seq<(u8, Seq<char>)> {
    v.map_values(|c: (u8, Vec<char>)| (c.0, c.1@))
}

proof fn lemma_body_last_slash(p: Seq<char>, j: int)
    requires
        0 <= j < p.len(),
        p[j] == '/',
        forall|k: int| j < k < p.len() ==> p[k] != '/',
    ensures
        body_components(p) == body_components(p.take(j)) + segment_component(p.skip(j + 1)),
{
    lemma_last_index_of(p, '/');
}

proof fn lemma_body_no_slash(p: Seq<char>)
    requires
        forall|k: int| 0 <= k < p.len() ==> p[k] != '/',
    ensures
        body_components(p) == segment_component(p),
{
    lemma_last_index_of(p, '/');
}

/// Appends the component of one segment.
fn push_segment(r: &mut Vec<(u8, Vec<char>)>, seg: Vec<char>)
    ensures
        component_views(final(r)@) == component_views(old(r)@) + segment_component(seg@),
{
    let ghost before = component_views(r@);
    if seg.len() == 0 || (seg.len() == 1 && seg[0] == '.') {
        proof {
            if seg@.len() == 1 && seg@[0] == '.' {
                assert(seg@ =~= seq!['.']);
            }
            assert(segment_component(seg@) =~= Seq::<(u8, Seq<char>)>::empty());
            assert(before + segment_component(seg@) =~= before);
        }
        return;
    }
    let dots = seg.len() == 2 && seg[0] == '.' && seg[1] == '.';
    proof {
        if seg@ == seq!['.'] {
            assert(seg@.len() == 1 && seg@[0] == '.');
        }
        if dots {
            assert(seg@ =~= seq!['.', '.']);
        } else if seg@ == seq!['.', '.'] {
            assert(seg@[0] == '.' && seg@[1] == '.');
        }
    }
    if dots {
        r.push((2u8, Vec::new()));
    } else {
        r.push((3u8, seg));
    }
    assert(component_views(r@) =~= before + segment_component(seg@));
}

/// The components of the path `p`.
fn components_of(p: &[char]) -> (r: Vec<(u8, Vec<char>)>)
    ensures
        component_views(r@) == path_components(p@),
{
    let mut r: Vec<(u8, Vec<char>)> = Vec::new();
    if p.len() > 0 && p[0] == '/' {
        r.push((0u8, Vec::new()));
    } else if (p.len() == 1 && p[0] == '.') || (p.len() >= 2 && p[0] == '.' && p[1] == '/') {
        r.push((1u8, Vec::new()));
    }
    proof {
        if p@.len() == 1 && p@[0] == '.' {
            assert(p@ =~= seq!['.']);
        }
        if p@ == seq!['.'] {
            assert(p@.len() == 1 && p@[0] == '.');
        }
        assert(component_views(r@) =~= leading_component(p@));
    }
    let mut st: usize = 0;
    let mut i: usize = 0;
    let mut seg: Vec<char> = Vec::new();
    while i < p.len()
        invariant
            st <= i <= p@.len(),
            seg@ == p@.subrange(st as int, i as int),
            forall|k: int| st <= k < i ==> p@[k] != '/',
            st > 0 ==> p@[st - 1] == '/',
            component_views(r@) == leading_component(p@) + (if st == 0 {
                Seq::<(u8, Seq<char>)>::empty()
            } else {
                body_components(p@.take(st - 1))
            }),
        decreases p@.len() - i,
    {
        if p[i] == '/' {
            let ghost q = p@.take(i as int);
            proof {
                if st > 0 {
                    lemma_body_last_slash(q, st - 1);
                    assert(q.take(st - 1) =~= p@.take(st - 1));
                    assert(q.skip(st as int) =~= p@.subrange(st as int, i as int));
                } else {
                    lemma_body_no_slash(q);
                    assert(q =~= p@.subrange(0, i as int));
                }
            }
            let done = seg;
            push_segment(&mut r, done);
            proof {
                assert(leading_component(p@) + (if st == 0 {
                    Seq::<(u8, Seq<char>)>::empty()
                } else {
                    body_components(p@.take(st - 1))
                }) + segment_component(p@.subrange(st as int, i as int)) =~= leading_component(p@)
                    + body_components(q));
                assert(p@.take(i + 1 - 1) =~= q);
            }
            seg = Vec::new();
            st = i + 1;
        } else {
            seg.push(p[i]);
            assert(seg@ =~= p@.subrange(st as int, i + 1));
        }
        i = i + 1;
    }
    proof {
        if st > 0 {
            lemma_body_last_slash(p@, st - 1);
            assert(p@.skip(st as int) =~= p@.subrange(st as int, p@.len() as int));
        } else {
            lemma_body_no_slash(p@);
            assert(p@ =~= p@.subrange(0, p@.len() as int));
        }
    }
    push_segment(&mut r, seg);
    proof {
        assert(leading_component(p@) + (if st == 0 {
            Seq::<(u8, Seq<char>)>::empty()
        } else {
            body_components(p@.take(st - 1))
        }) + segment_component(p@.subrange(st as int, p@.len() as int)) =~= path_components(p@));
    }
    r
}

/// Are two computed component lists equal?
fn components_eq(a: &Vec<(u8, Vec<char>)>, b: &Vec<(u8, Vec<char>)>) -> (r: bool)
    ensures
        r == (component_views(a@) == component_views(b@)),
{
    let ghost av = component_views(a@);
    let ghost bv = component_views(b@);
    if a.len() != b.len() {
        assert(av.len() != bv.len());
        return false;
    }
    let mut i: usize = 0;
    while i < a.len()
        invariant
            a@.len() == b@.len(),
            i <= a@.len(),
            av == component_views(a@),
            bv == component_views(b@),
            forall|k: int| 0 <= k < i ==> av[k] == bv[k],
        decreases a@.len() - i,
    {
        if a[i].0 != b[i].0 || !chars_eq(a[i].1.as_slice(), b[i].1.as_slice()) {
            assert(av[i as int] != bv[i as int]);
            return false;
        }
        assert(av[i as int] == bv[i as int]);
        i = i + 1;
    }
    assert(av =~= bv);
    true
}

/// Does the computed component list `a` come before `b`?
fn components_before(a: &Vec<(u8, Vec<char>)>, b: &Vec<(u8, Vec<char>)>) -> (r: bool)
    ensures
        r == components_lt(component_views(a@), component_views(b@)),
{
    let ghost av = component_views(a@);
    let ghost bv = component_views(b@);
    let mut i: usize = 0;
    assert(av.skip(0) =~= av && bv.skip(0) =~= bv);
    while i < a.len() && i < b.len() && a[i].0 == b[i].0 && chars_eq(a[i].1.as_slice(), b[i].1.as_slice())
        invariant
            i <= a@.len(),
            i <= b@.len(),
            av == component_views(a@),
            bv == component_views(b@),
            components_lt(av, bv) == components_lt(av.skip(i as int), bv.skip(i as int)),
        decreases a@.len() - i,
    {
        assert(av.skip(i as int)[0] == bv.skip(i as int)[0]);
        assert(av.skip(i as int).skip(1) =~= av.skip(i + 1));
        assert(bv.skip(i as int).skip(1) =~= bv.skip(i + 1));
        i = i + 1;
    }
    if i == a.len() {
        i < b.len()
    } else if i == b.len() {
        false
    } else {
        assert(av.skip(i as int)[0] == av[i as int] && bv.skip(i as int)[0] == bv[i as int]);
        assert(av[i as int] != bv[i as int]);
        a[i].0 < b[i].0 || (a[i].0 == b[i].0 && chars_lt(a[i].1.as_slice(), b[i].1.as_slice()))
    }
}

proof fn lemma_below_count(set: Seq<Seq<char>>, x: Seq<char>)
    ensures
        0 <= below_count(set, x) <= set.len(),
        forall|j: int| 0 <= j < below_count(set, x) ==> path_lt(#[trigger] set[j], x),
        below_count(set, x) < set.len() ==> !path_lt(set[below_count(set, x)], x),
    decreases set.len(),
{
    if set.len() > 0 && path_lt(set[0], x) {
        lemma_below_count(set.skip(1), x);
        assert forall|j: int| 0 <= j < below_count(set, x) implies path_lt(#[trigger] set[j], x) by {
            if j > 0 {
                assert(set[j] == set.skip(1)[j - 1]);
            }
        }
    }
}

proof fn lemma_below_count_is(set: Seq<Seq<char>>, x: Seq<char>, p: int)
    requires
        0 <= p <= set.len(),
        forall|j: int| 0 <= j < p ==> path_lt(#[trigger] set[j], x),
        p < set.len() ==> !path_lt(set[p], x),
    ensures
        below_count(set, x) == p,
    decreases p,
{
    if p > 0 {
        assert forall|j: int| 0 <= j < p - 1 implies path_lt(#[trigger] set.skip(1)[j], x) by {
            assert(set.skip(1)[j] == set[j + 1]);
        }
        if p < set.len() {
            assert(set.skip(1)[p - 1] == set[p]);
        }
        lemma_below_count_is(set.skip(1), x, p - 1);
        assert(path_lt(set[0], x));
    }
}

/// Adds the path `x` to `set` as `BTreeSet::insert` adds to a set of paths.
pub fn insert_path(set: &mut Vec<String>, x: String)
    ensures
        string_views(final(set)@) == path_set_insert(string_views(old(set)@), x@),
        path_sorted(string_views(old(set)@)) ==> path_sorted(string_views(final(set)@)),
{
    let ghost views = string_views(set@);
    let xc = components_of(chars_of(x.as_str()).as_slice());
    let mut i: usize = 0;
    while i < set.len()
        invariant
            i <= set@.len(),
            views == string_views(set@),
            component_views(xc@) == path_components(x@),
            forall|j: int| 0 <= j < i ==> !same_path(#[trigger] views[j], x@),
        decreases set@.len() - i,
    {
        let e = components_of(chars_of(set[i].as_str()).as_slice());
        if components_eq(&e, &xc) {
            assert(same_path(views[i as int], x@));
            return;
        }
        i = i + 1;
    }
    let mut p: usize = 0;
    let mut found = false;
    while p < set.len() && !found
        invariant
            p <= set@.len(),
            views == string_views(set@),
            component_views(xc@) == path_components(x@),
            forall|j: int| 0 <= j < p ==> path_lt(#[trigger] views[j], x@),
            found ==> p < set@.len() && !path_lt(views[p as int], x@),
        decreases set@.len() - p + (if found { 0int } else { 1int }),
    {
        let e = components_of(chars_of(set[p].as_str()).as_slice());
        if components_before(&e, &xc) {
            p = p + 1;
        } else {
            found = true;
        }
    }
    proof {
        lemma_below_count_is(views, x@, p as int);
    }
    let ghost xv = x@;
    set.insert(p, x);
    assert(string_views(set@) =~= views.insert(p as int, xv));
    proof {
        if path_sorted(views) {
            lemma_insert_keeps_sorted(views, xv);
        }
    }
}

/// Adds the paths of `items` to `set`, in order, as `BTreeSet::insert`
/// adds to a set of paths.
pub fn insert_paths(set: &mut Vec<String>, items: &[String])
    ensures
        string_views(final(set)@) == path_set_insert_all(string_views(old(set)@), string_views(items@)),
{
    let ghost start = string_views(set@);
    let ghost iv = string_views(items@);
    let mut i: usize = 0;
    assert(iv.take(0) =~= Seq::<Seq<char>>::empty());
    while i < items.len()
        invariant
            i <= items@.len(),
            iv == string_views(items@),
            string_views(set@) == path_set_insert_all(start, iv.take(i as int)),
        decreases items@.len() - i,
    {
        assert(iv.take(i + 1).drop_last() =~= iv.take(i as int));
        assert(iv.take(i + 1).last() == items@[i as int]@);
        insert_path(set, items[i].clone());
        i = i + 1;
    }
    assert(iv.take(items@.len() as int) =~= iv);
}

proof fn lemma_component_lt_total(x: (u8, Seq<char>), y: (u8, Seq<char>))
    ensures
        x == y || component_lt(x, y) || component_lt(y, x),
        !(component_lt(x, y) && component_lt(y, x)),
{
    lemma_char_seq_lt_total(x.1, y.1);
}

/// Component order is a strict total order: of two different component
/// sequences, exactly one comes first.
pub proof fn lemma_components_lt_total(a: Seq<(u8, Seq<char>)>, b: Seq<(u8, Seq<char>)>)
    ensures
        a == b || components_lt(a, b) || components_lt(b, a),
        !(components_lt(a, b) && components_lt(b, a)),
    decreases a.len(),
{
    if a.len() > 0 && b.len() > 0 {
        lemma_components_lt_total(a.skip(1), b.skip(1));
        lemma_component_lt_total(a[0], b[0]);
        if a[0] == b[0] && a.skip(1) == b.skip(1) {
            assert(a =~= seq![a[0]] + a.skip(1));
            assert(b =~= seq![b[0]] + b.skip(1));
        }
    } else if a.len() == 0 && b.len() == 0 {
        assert(a =~= b);
    }
}

/// Adding a path keeps a set in `Path` order.
pub proof fn lemma_insert_keeps_sorted(set: Seq<Seq<char>>, x: Seq<char>)
    requires
        path_sorted(set),
    ensures
        path_sorted(path_set_insert(set, x)),
{
    if !has_same_path(set, x) {
        let p = below_count(set, x);
        lemma_below_count(set, x);
        let nv = set.insert(p, x);
        assert forall|i: int| 0 <= i < nv.len() - 1 implies path_lt(#[trigger] nv[i], nv[i + 1]) by {
            if i < p - 1 {
                assert(nv[i] == set[i] && nv[i + 1] == set[i + 1]);
            } else if i == p - 1 {
                assert(nv[i] == set[i] && nv[i + 1] == x);
            } else if i == p {
                assert(nv[i] == x && nv[i + 1] == set[p]);
                assert(!same_path(set[p], x));
                lemma_components_lt_total(path_components(set[p]), path_components(x));
            } else {
                assert(nv[i] == set[i - 1] && nv[i + 1] == set[i]);
            }
        }
    }
}

/// Adding a path keeps the paths a set held, holds the added one, and
/// brings in no other.
proof fn lemma_insert_members(prev: Seq<Seq<char>>, x: Seq<char>)
    ensures
        forall|y: Seq<char>| has_same_path(prev, y) ==> has_same_path(#[trigger] path_set_insert(prev, x), y),
        has_same_path(path_set_insert(prev, x), x),
        forall|i: int|
            0 <= i < path_set_insert(prev, x).len() ==> prev.contains(#[trigger] path_set_insert(prev, x)[i])
                || path_set_insert(prev, x)[i] == x,
{
    let cur = path_set_insert(prev, x);
    let added = !has_same_path(prev, x);
    let p = below_count(prev, x);
    lemma_below_count(prev, x);
    assert forall|y: Seq<char>| has_same_path(prev, y) implies has_same_path(cur, y) by {
        let j = choose|j: int| 0 <= j < prev.len() && same_path(#[trigger] prev[j], y);
        if added {
            if j < p {
                assert(cur[j] == prev[j]);
            } else {
                assert(cur[j + 1] == prev[j]);
            }
        }
    }
    if added {
        assert(cur[p] == x);
        assert(same_path(cur[p], x));
    }
    assert forall|i: int| 0 <= i < cur.len() implies prev.contains(#[trigger] cur[i]) || cur[i] == x by {
        if added && i != p {
            let k = if i > p { i - 1 } else { i };
            assert(cur[i] == prev[k]);
        } else if !added {
            assert(cur[i] == prev[i]);
        }
    }
}

/// Adding paths to a set in `Path` order keeps it so; afterwards it holds,
/// for each path it held and each path added, one with the same
/// components, and every path it holds was held or added.
#[verifier::spinoff_prover]
pub proof fn lemma_insert_all(set: Seq<Seq<char>>, items: Seq<Seq<char>>)
    requires
        path_sorted(set),
    ensures
        path_sorted(path_set_insert_all(set, items)),
        forall|i: int| 0 <= i < set.len() ==> has_same_path(path_set_insert_all(set, items), #[trigger] set[i]),
        forall|i: int| 0 <= i < items.len() ==> has_same_path(path_set_insert_all(set, items), #[trigger] items[i]),
        forall|i: int|
            0 <= i < path_set_insert_all(set, items).len() ==> set.contains(
                #[trigger] path_set_insert_all(set, items)[i],
            ) || items.contains(path_set_insert_all(set, items)[i]),
    decreases items.len(),
{
    if items.len() == 0 {
        assert forall|i: int| 0 <= i < set.len() implies has_same_path(set, #[trigger] set[i]) by {
            assert(same_path(set[i], set[i]));
        }
    } else {
        let init = items.drop_last();
        let x = items.last();
        let prev = path_set_insert_all(set, init);
        let cur = path_set_insert_all(set, items);
        lemma_insert_all(set, init);
        lemma_insert_keeps_sorted(prev, x);
        lemma_insert_members(prev, x);
        assert(cur == path_set_insert(prev, x));
        assert forall|i: int| 0 <= i < set.len() implies has_same_path(cur, #[trigger] set[i]) by {
            assert(has_same_path(prev, set[i]));
        }
        assert forall|i: int| 0 <= i < items.len() implies has_same_path(cur, #[trigger] items[i]) by {
            if i < items.len() - 1 {
                assert(items[i] == init[i]);
                assert(has_same_path(prev, init[i]));
            }
        }
        assert forall|i: int| 0 <= i < cur.len() implies set.contains(#[trigger] cur[i]) || items.contains(cur[i]) by {
            if cur[i] == x {
                assert(items[items.len() - 1] == x);
            } else {
                assert(prev.contains(cur[i]));
                let k = choose|k: int| 0 <= k < prev.len() && prev[k] == cur[i];
                if !set.contains(prev[k]) {
                    let m = choose|m: int| 0 <= m < init.len() && init[m] == prev[k];
                    assert(items[m] == init[m]);
                }
            }
        }
    }
}

} // verus!
