//! Unix paths as text.
//!
//! A path is read as the sequence of its components: the root, where the text
//! starts with `/`, and the pieces between slashes. Empty pieces do not count,
//! and neither does `.` except at the start of a relative path. Two texts with the
//! same components name the same path.

use vstd::prelude::*;
use vstd::seq_lib::to_multiset_insert;

use crate::text::{
    before, chars_of, precedes, precedes_irreflexive, precedes_total, precedes_transitive, same,
    text_of, texts,
};

verus! {

/// The first position from `i` on that holds a slash, or the end.
pub open spec fn next_slash(s: Seq<char>, i: int) -> int
    decreases s.len() - i,
{
    if 0 <= i < s.len() && s[i] != '/' {
        next_slash(s, i + 1)
    } else {
        i
    }
}

/// The component starting at `i` and ending at `e` does not count.
pub open spec fn is_skipped(s: Seq<char>, i: int, e: int) -> bool {
    e == i || (i > 0 && e == i + 1 && s[i] == '.')
}

/// Where the components of `s` from `i` on stand, each as its start and its end.
pub open spec fn spans_from(s: Seq<char>, i: int) -> Seq<(int, int)>
    decreases s.len() + 1 - i,
    when 0 <= i
    via spans_from_decreases
{
    if i > s.len() {
        Seq::empty()
    } else {
        let e = next_slash(s, i);
        let rest = spans_from(s, e + 1);
        if is_skipped(s, i, e) {
            rest
        } else {
            seq![(i, e)] + rest
        }
    }
}

#[via_fn]
proof fn spans_from_decreases(s: Seq<char>, i: int) {
    if i <= s.len() {
        next_slash_is_first(s, i);
    }
}

proof fn next_slash_is_first(s: Seq<char>, i: int)
    requires
        0 <= i <= s.len(),
    ensures
        i <= next_slash(s, i) <= s.len(),
        forall|k: int| i <= k < next_slash(s, i) ==> s[k] != '/',
        next_slash(s, i) < s.len() ==> s[next_slash(s, i)] == '/',
    decreases s.len() - i,
{
    if i < s.len() && s[i] != '/' {
        next_slash_is_first(s, i + 1);
    }
}

proof fn next_slash_is(s: Seq<char>, i: int, e: int)
    requires
        0 <= i <= e <= s.len(),
        forall|k: int| i <= k < e ==> s[k] != '/',
        e == s.len() || s[e] == '/',
    ensures
        next_slash(s, i) == e,
    decreases e - i,
{
    if i < e {
        next_slash_is(s, i + 1, e);
    }
}

/// The path starts at the root.
pub open spec fn is_absolute(s: Seq<char>) -> bool {
    s.len() > 0 && s[0] == '/'
}

/// Where the components of a path stand.
pub open spec fn spans(s: Seq<char>) -> Seq<(int, int)> {
    if is_absolute(s) {
        seq![(0int, 1int)] + spans_from(s, 0)
    } else {
        spans_from(s, 0)
    }
}

/// The texts at the given places.
pub open spec fn at_spans(s: Seq<char>, spans: Seq<(int, int)>) -> Seq<Seq<char>> {
    Seq::new(spans.len(), |i: int| s.subrange(spans[i].0, spans[i].1))
}

/// The components of a path.
pub open spec fn components(s: Seq<char>) -> Seq<Seq<char>> {
    at_spans(s, spans(s))
}

/// `base` is the path itself or one of the directories above it.
pub open spec fn is_under(path: Seq<char>, base: Seq<char>) -> bool {
    components(base).len() <= components(path).len() && components(path).take(
        components(base).len() as int,
    ) == components(base)
}

/// The part of a path below `base`, where it stands under it.
pub open spec fn below(path: Seq<char>, base: Seq<char>) -> Option<Seq<char>> {
    let n = components(base).len() as int;
    if !is_under(path, base) {
        None
    } else if n == spans(path).len() {
        Some(Seq::empty())
    } else {
        Some(path.subrange(spans(path)[n].0, spans(path).last().1))
    }
}

/// `base` with `rest` appended: `rest` itself where it is absolute.
pub open spec fn joined_path(base: Seq<char>, rest: Seq<char>) -> Seq<char> {
    if is_absolute(rest) {
        rest
    } else if base.len() == 0 || base.last() == '/' {
        base + rest
    } else {
        base.push('/') + rest
    }
}

/// Where component spans stand in a text of `len` characters, from `lo` on.
spec fn in_bounds(spans: Seq<(int, int)>, lo: int, len: int) -> bool {
    forall|k: int|
        0 <= k < spans.len() ==> lo <= (#[trigger] spans[k]).0 < spans[k].1 <= len
}

proof fn spans_from_in_bounds(s: Seq<char>, i: int)
    requires
        0 <= i,
    ensures
        in_bounds(spans_from(s, i), i, s.len() as int),
        forall|k: int, j: int| #![trigger spans_from(s, i)[k], spans_from(s, i)[j]]
            0 <= k < j < spans_from(s, i).len() ==> spans_from(s, i)[k].1 < spans_from(s, i)[j].0,
    decreases s.len() + 1 - i,
{
    if i <= s.len() {
        next_slash_is_first(s, i);
        let e = next_slash(s, i);
        let rest = spans_from(s, e + 1);
        spans_from_in_bounds(s, e + 1);
        let all = spans_from(s, i);
        if !is_skipped(s, i, e) {
            assert(all == seq![(i, e)] + rest);
            assert forall|k: int| 0 <= k < all.len() implies i <= (#[trigger] all[k]).0 < all[k].1
                <= s.len() by {
                if k > 0 {
                    assert(all[k] == rest[k - 1]);
                }
            }
            assert forall|k: int, j: int| 0 <= k < j < all.len() implies (#[trigger] all[k]).1 < (
            #[trigger] all[j]).0 by {
                assert(all[j] == rest[j - 1]);
                if k > 0 {
                    assert(all[k] == rest[k - 1]);
                }
            }
        }
    }
}

/// Component spans lie inside the text, one after the other.
pub proof fn spans_are_ordered(s: Seq<char>)
    ensures
        forall|k: int|
            0 <= k < spans(s).len() ==> 0 <= (#[trigger] spans(s)[k]).0 < spans(s)[k].1 <= s.len(),
        forall|k: int, j: int| #![trigger spans(s)[k], spans(s)[j]]
            0 <= k < j < spans(s).len() ==> spans(s)[k].1 <= spans(s)[j].0,
{
    spans_from_in_bounds(s, 0);
    if is_absolute(s) {
        let rest = spans_from(s, 0);
        let all = spans(s);
        assert(next_slash(s, 0) == 0);
        assert(rest == spans_from(s, 1));
        spans_from_in_bounds(s, 1);
        assert forall|k: int| 0 <= k < all.len() implies 0 <= (#[trigger] all[k]).0 < all[k].1
            <= s.len() by {
            if k > 0 {
                assert(all[k] == rest[k - 1]);
            }
        }
        assert forall|k: int, j: int| 0 <= k < j < all.len() implies (#[trigger] all[k]).1 <= (
        #[trigger] all[j]).0 by {
            assert(all[j] == rest[j - 1]);
            if k > 0 {
                assert(all[k] == rest[k - 1]);
            }
        }
    }
}

proof fn spans_of_appended(dir: Seq<char>, name: Seq<char>, i: int)
    requires
        0 <= i <= dir.len() + 1,
        name.len() > 0,
        !name.contains('/'),
        name != seq!['.'],
    ensures
        spans_from(dir.push('/') + name, i) == spans_from(dir, i).push(
            (dir.len() as int + 1, dir.len() as int + 1 + name.len()),
        ),
    decreases dir.len() + 1 - i,
{
    let s = dir.push('/') + name;
    let n = dir.len() as int;
    if i == n + 1 {
        assert forall|k: int| i <= k < s.len() implies s[k] != '/' by {
            assert(s[k] == name[k - n - 1]);
        }
        next_slash_is(s, i, s.len() as int);
        assert(s[i] == name[0]);
        if name.len() == 1 && name[0] == '.' {
            assert(name =~= seq!['.']);
        }
        assert(spans_from(s, s.len() as int + 1) =~= Seq::empty());
        assert(spans_from(dir, i) =~= Seq::empty());
        assert(spans_from(s, i) =~= seq![(n + 1, n + 1 + name.len())]);
    } else {
        next_slash_is_first(dir, i);
        let e = next_slash(dir, i);
        assert forall|k: int| i <= k < e implies s[k] != '/' by {
            assert(s[k] == dir[k]);
        }
        assert(s[e] == '/');
        next_slash_is(s, i, e);
        if i < e {
            assert(s[i] == dir[i]);
        }
        spans_of_appended(dir, name, e + 1);
        assert(is_skipped(s, i, e) == is_skipped(dir, i, e));
        assert(spans_from(s, i) =~= spans_from(dir, i).push((n + 1, n + 1 + name.len())));
    }
}

/// A name in a directory is one component more: the path of the name is made of the
/// components of the directory and of the name.
pub proof fn a_name_is_one_component_more(dir: Seq<char>, name: Seq<char>)
    requires
        dir.len() > 0,
        name.len() > 0,
        !name.contains('/'),
        name != seq!['.'],
    ensures
        components(dir.push('/') + name) == components(dir).push(name),
        spans(dir.push('/') + name) == spans(dir).push(
            (dir.len() as int + 1, dir.len() as int + 1 + name.len()),
        ),
{
    let s = dir.push('/') + name;
    let at = (dir.len() + 1, dir.len() + 1 + name.len());
    spans_of_appended(dir, name, 0);
    assert(s[0] == dir[0]);
    assert(spans(s) =~= spans(dir).push((at.0 as int, at.1 as int)));
    spans_are_ordered(dir);
    assert(s.subrange(at.0 as int, at.1 as int) =~= name);
    assert forall|k: int| 0 <= k < spans(dir).len() implies components(s)[k] == components(
        dir,
    )[k] by {
        let p = spans(dir)[k];
        assert(spans(s)[k] == p);
        assert(s.subrange(p.0, p.1) =~= dir.subrange(p.0, p.1));
    }
    assert(components(s) =~= components(dir).push(name));
}

/// A name by itself is one component, and so is one below the root after the root's.
pub proof fn a_plain_name_is_a_component(name: Seq<char>)
    requires
        name.len() > 0,
        !name.contains('/'),
    ensures
        components(name) == seq![name],
        components(seq!['/']) == seq![seq!['/']],
        name != seq!['.'] ==> components(seq!['/'] + name) == seq![seq!['/'], name],
        components(Seq::empty()) == Seq::<Seq<char>>::empty(),
        spans(name) == seq![(0int, name.len() as int)],
        name != seq!['.'] ==> spans(seq!['/'] + name) == seq![
            (0int, 1int),
            (1int, name.len() as int + 1),
        ],
{
    assert(name[0] != '/') by {
        assert(name.contains(name[0]));
    }
    assert forall|k: int| 0 <= k < name.len() implies name[k] != '/' by {
        assert(name.contains(name[k]));
    }
    next_slash_is(name, 0, name.len() as int);
    assert(spans_from(name, name.len() as int + 1) =~= Seq::empty());
    assert(spans(name) =~= seq![(0int, name.len() as int)]);
    assert(name.subrange(0, name.len() as int) =~= name);
    assert(components(name) =~= seq![name]);
    let root = seq!['/'];
    assert(next_slash(root, 0) == 0);
    assert(next_slash(root, 1) == 1);
    assert(spans_from(root, 2) =~= Seq::empty());
    assert(spans_from(root, 1) =~= Seq::empty());
    assert(spans_from(root, 0) =~= Seq::empty());
    assert(spans(root) =~= seq![(0int, 1int)]);
    assert(root.subrange(0, 1) =~= root);
    assert(components(root) =~= seq![root]);
    let none = Seq::<char>::empty();
    assert(next_slash(none, 0) == 0);
    assert(spans_from(none, 1) =~= Seq::empty());
    assert(spans_from(none, 0) =~= Seq::empty());
    assert(components(none) =~= Seq::<Seq<char>>::empty());
    if name != seq!['.'] {
        spans_of_appended(none, name, 0);
        let s = root + name;
        assert(none.push('/') + name =~= s);
        assert(spans(s) =~= seq![(0int, 1int), (1int, s.len() as int)]);
        assert(s.subrange(0, 1) =~= root);
        assert(s.subrange(1, s.len() as int) =~= name);
        assert(components(s) =~= seq![root, name]);
    }
}

/// What follows the last slash of a path is its last component.
pub proof fn the_last_name_is_the_last_component(s: Seq<char>, at: int)
    requires
        0 <= at < s.len(),
        at == 0 || s[at - 1] == '/',
        forall|k: int| at <= k < s.len() ==> s[k] != '/',
        s.skip(at) != seq!['.'],
    ensures
        components(s).len() > 0,
        components(s).last() == s.skip(at),
        spans(s).last() == (at, s.len() as int),
{
    let name = s.skip(at);
    assert(!name.contains('/')) by {
        if name.contains('/') {
            let k = name.index_of('/');
            assert(name[k] == s[at + k]);
        }
    }
    a_plain_name_is_a_component(name);
    if at == 0 {
        assert(name =~= s);
    } else if at == 1 {
        assert(s =~= seq!['/'] + name);
    } else {
        let dir = s.take(at - 1);
        assert(s =~= dir.push('/') + name);
        a_name_is_one_component_more(dir, name);
    }
}

/// A path is under another exactly where its components begin with those of the other:
/// each path is under itself and under the directory it stands in, and a directory
/// whose name only begins alike is another one.
pub proof fn under_is_of_whole_components(
    path: Seq<char>,
    base: Seq<char>,
    dir: Seq<char>,
    name: Seq<char>,
)
    requires
        dir.len() > 0,
        name.len() > 0,
        !name.contains('/'),
        name != seq!['.'],
    ensures
        is_under(path, base) <==> components(base).is_prefix_of(components(path)),
        is_under(path, path),
        is_under(dir.push('/') + name, dir),
        is_under(path, dir) && is_under(dir, base) ==> is_under(path, base),
        is_under(dir.push('/') + name, base) <==> is_under(dir, base) || components(base)
            == components(dir).push(name),
{
    let cp = components(path);
    let cb = components(base);
    let cd = components(dir);
    a_name_is_one_component_more(dir, name);
    let cn = components(dir.push('/') + name);
    assert(cp.take(cp.len() as int) =~= cp);
    assert(cn.take(cd.len() as int) =~= cd);
    if cb.len() <= cp.len() {
        assert(cp.take(cb.len() as int) == cp.subrange(0, cb.len() as int));
    }
    if is_under(path, dir) && is_under(dir, base) {
        assert(cp.take(cb.len() as int) =~= cd.take(cb.len() as int));
    }
    if cb.len() <= cd.len() {
        assert(cn.take(cb.len() as int) =~= cd.take(cb.len() as int));
    } else if cb.len() == cn.len() {
        assert(cn.take(cb.len() as int) =~= cn);
    }
}

/// The exec form of spans.
pub open spec fn span_values(v: Seq<(usize, usize)>) -> Seq<(int, int)> {
    Seq::new(v.len(), |i: int| (v[i].0 as int, v[i].1 as int))
}

/// Where the components of a path stand.
pub fn component_spans(chars: &Vec<char>) -> (out: Vec<(usize, usize)>)
    ensures
        span_values(out@) == spans(chars@),
{
    let len: usize = chars.len();
    let mut out: Vec<(usize, usize)> = Vec::new();
    if len > 0 && chars[0] == '/' {
        out.push((0, 1));
    }
    let ghost lead = span_values(out@);
    let ghost s = chars@;
    proof {
        assert(lead =~= (if is_absolute(s) {
            seq![(0int, 1int)]
        } else {
            Seq::empty()
        }));
        assert(lead + spans_from(s, 0) =~= spans(s));
    }
    let mut i: usize = 0;
    let mut done: bool = false;
    while !done
        invariant
            s == chars@,
            len == s.len(),
            i <= len,
            lead + spans_from(s, 0) == spans(s),
            !done ==> span_values(out@) + spans_from(s, i as int) == spans(s),
            done ==> span_values(out@) == spans(s),
        decreases (if done { 0int } else { len + 1 - i }),
    {
        let mut e: usize = i;
        while e < len && chars[e] != '/'
            invariant
                s == chars@,
                len == s.len(),
                i <= e <= len,
                forall|k: int| i <= k < e ==> s[k] != '/',
            decreases len - e,
        {
            e += 1;
        }
        proof {
            next_slash_is(s, i as int, e as int);
        }
        let ghost held = span_values(out@);
        let ghost rest = spans_from(s, e + 1);
        if !(e == i || (i > 0 && e == i + 1 && chars[i] == '.')) {
            out.push((i, e));
            proof {
                assert(span_values(out@) =~= held.push((i as int, e as int)));
                assert(held + (seq![(i as int, e as int)] + rest) =~= span_values(out@) + rest);
            }
        }
        assert(span_values(out@) + rest == spans(s));
        if e == len {
            assert(rest =~= Seq::<(int, int)>::empty());
            assert(span_values(out@) + rest =~= span_values(out@));
            done = true;
        } else {
            i = e + 1;
        }
    }
    out
}

/// Whether two stretches of text are the same.
fn same_stretch(
    a: &Vec<char>,
    a_from: usize,
    a_to: usize,
    b: &Vec<char>,
    b_from: usize,
    b_to: usize,
) -> (r: bool)
    requires
        a_from <= a_to <= a@.len(),
        b_from <= b_to <= b@.len(),
    ensures
        r == (a@.subrange(a_from as int, a_to as int) == b@.subrange(b_from as int, b_to as int)),
{
    let x = text_of(a, a_from, a_to);
    let y = text_of(b, b_from, b_to);
    same(x.as_str(), y.as_str())
}

/// Whether `path` is `base` or stands somewhere under it.
pub fn starts_with(path: &str, base: &str) -> (r: bool)
    ensures
        r == is_under(path@, base@),
{
    let p = chars_of(path);
    let b = chars_of(base);
    let ps = component_spans(&p);
    let bs = component_spans(&b);
    proof {
        spans_are_ordered(path@);
        spans_are_ordered(base@);
        assert(span_values(ps@).len() == ps@.len() && span_values(bs@).len() == bs@.len());
    }
    if bs.len() > ps.len() {
        return false;
    }
    let ghost pc = components(path@);
    let ghost bc = components(base@);
    let mut i: usize = 0;
    while i < bs.len()
        invariant
            p@ == path@,
            b@ == base@,
            i <= bs@.len() <= ps@.len(),
            span_values(ps@) == spans(path@),
            span_values(bs@) == spans(base@),
            pc == components(path@),
            bc == components(base@),
            forall|k: int|
                0 <= k < ps@.len() ==> 0 <= (#[trigger] spans(path@)[k]).0 < spans(path@)[k].1
                    <= path@.len(),
            forall|k: int|
                0 <= k < bs@.len() ==> 0 <= (#[trigger] spans(base@)[k]).0 < spans(base@)[k].1
                    <= base@.len(),
            forall|k: int| 0 <= k < i ==> pc[k] == bc[k],
        decreases bs@.len() - i,
    {
        assert(spans(path@)[i as int] == (ps@[i as int].0 as int, ps@[i as int].1 as int));
        assert(spans(base@)[i as int] == (bs@[i as int].0 as int, bs@[i as int].1 as int));
        if !same_stretch(&p, ps[i].0, ps[i].1, &b, bs[i].0, bs[i].1) {
            proof {
                assert(pc.take(bc.len() as int)[i as int] != bc[i as int]);
            }
            return false;
        }
        i += 1;
    }
    proof {
        assert(pc.take(bc.len() as int) =~= bc);
    }
    true
}

/// The part of `path` below `base`, where it stands under it.
pub fn strip_base(path: &str, base: &str) -> (r: Option<String>)
    ensures
        match r {
            Some(rest) => below(path@, base@) == Some(rest@),
            None => below(path@, base@) is None,
        },
{
    if !starts_with(path, base) {
        return None;
    }
    let p = chars_of(path);
    let b = chars_of(base);
    let ps = component_spans(&p);
    let bs = component_spans(&b);
    proof {
        spans_are_ordered(path@);
        assert(span_values(ps@).len() == ps@.len() && span_values(bs@).len() == bs@.len());
    }
    let n: usize = bs.len();
    if n == ps.len() {
        return Some(String::new());
    }
    let last: usize = ps.len() - 1;
    proof {
        assert(spans(path@)[n as int] == (ps@[n as int].0 as int, ps@[n as int].1 as int));
        assert(spans(path@)[last as int] == (ps@[last as int].0 as int, ps@[last as int].1 as int));
        assert(spans(path@).last() == spans(path@)[last as int]);
    }
    Some(text_of(&p, ps[n].0, ps[last].1))
}

/// `base` with `rest` appended: `rest` itself where it is absolute.
pub fn join(base: &str, rest: &str) -> (out: String)
    ensures
        out@ == joined_path(base@, rest@),
{
    let r = chars_of(rest);
    if r.len() > 0 && r[0] == '/' {
        return rest.to_owned();
    }
    let b = chars_of(base);
    let mut out = base.to_owned();
    if b.len() > 0 && b[b.len() - 1] != '/' {
        out.push('/');
    }
    out.append(rest);
    out
}

/// The components with one slash between each two.
pub open spec fn slashed(cs: Seq<Seq<char>>) -> Seq<char>
    decreases cs.len(),
{
    if cs.len() == 0 {
        Seq::empty()
    } else if cs.len() == 1 {
        cs[0]
    } else {
        cs[0].push('/') + slashed(cs.drop_first())
    }
}

/// The shortest text with the same components.
pub open spec fn normal(s: Seq<char>) -> Seq<char> {
    if is_absolute(s) {
        seq!['/'] + slashed(components(s).drop_first())
    } else {
        slashed(components(s))
    }
}

/// A text that can stand as one component after the first.
spec fn is_piece(c: Seq<char>) -> bool {
    c.len() > 0 && !c.contains('/') && c != seq!['.']
}

/// Pieces, the first of which may be `.` where `lead` says so.
spec fn are_pieces(cs: Seq<Seq<char>>, lead: bool) -> bool {
    forall|k: int|
        0 <= k < cs.len() ==> is_piece(#[trigger] cs[k]) || (lead && k == 0 && cs[k] == seq!['.'])
}

proof fn at_spans_cons(s: Seq<char>, i: int, e: int, rest: Seq<(int, int)>)
    ensures
        at_spans(s, seq![(i, e)] + rest) == seq![s.subrange(i, e)] + at_spans(s, rest),
{
    let all = seq![(i, e)] + rest;
    assert forall|k: int| 0 <= k < all.len() implies #[trigger] at_spans(s, all)[k] == (seq![
        s.subrange(i, e),
    ] + at_spans(s, rest))[k] by {
        if k > 0 {
            assert(all[k] == rest[k - 1]);
        }
    }
    assert(at_spans(s, all) =~= seq![s.subrange(i, e)] + at_spans(s, rest));
}

proof fn spans_are_pieces(s: Seq<char>, i: int)
    requires
        0 <= i,
    ensures
        are_pieces(at_spans(s, spans_from(s, i)), i == 0),
        i == 0 && is_absolute(s) ==> are_pieces(at_spans(s, spans_from(s, i)), false),
    decreases s.len() + 1 - i,
{
    if i <= s.len() {
        next_slash_is_first(s, i);
        let e = next_slash(s, i);
        let rest = spans_from(s, e + 1);
        spans_are_pieces(s, e + 1);
        if !is_skipped(s, i, e) {
            at_spans_cons(s, i, e, rest);
            let c = s.subrange(i, e);
            assert(!c.contains('/')) by {
                if c.contains('/') {
                    let k = c.index_of('/');
                    assert(c[k] == s[i + k]);
                }
            }
            if c == seq!['.'] {
                assert(c[0] == s[i]);
            }
            let all = at_spans(s, spans_from(s, i));
            assert forall|k: int| 0 <= k < all.len() implies is_piece(#[trigger] all[k]) || (i == 0
                && k == 0 && all[k] == seq!['.']) by {
                if k > 0 {
                    assert(all[k] == at_spans(s, rest)[k - 1]);
                }
            }
        }
    }
}

proof fn slashed_reads_back(s: Seq<char>, i: int, cs: Seq<Seq<char>>)
    requires
        0 <= i <= s.len(),
        s.skip(i) == slashed(cs),
        are_pieces(cs, i == 0),
    ensures
        at_spans(s, spans_from(s, i)) == cs,
    decreases cs.len(),
{
    if cs.len() == 0 {
        assert(s.skip(i).len() == 0);
        assert(next_slash(s, i) == i);
        assert(spans_from(s, i + 1) =~= Seq::<(int, int)>::empty());
        assert(at_spans(s, spans_from(s, i)) =~= cs);
    } else {
        let c = cs[0];
        assert(is_piece(cs[0]) || (i == 0 && cs[0] == seq!['.']));
        assert(!c.contains('/')) by {
            if c == seq!['.'] {
                assert(c[0] == '.');
            }
        }
        let e = i + c.len();
        let tail = s.skip(i);
        assert(c.len() <= tail.len());
        assert forall|k: int| i <= k < e implies s[k] != '/' by {
            assert(s[k] == tail[k - i]);
            assert(tail[k - i] == c[k - i]);
            assert(c.contains(c[k - i]));
        }
        if cs.len() > 1 {
            assert(tail[c.len() as int] == '/');
            assert(s[e] == tail[c.len() as int]);
        }
        next_slash_is(s, i, e);
        assert(s.subrange(i, e) =~= c);
        if is_skipped(s, i, e) {
            assert(c =~= seq!['.']);
        }
        let rest = spans_from(s, e + 1);
        at_spans_cons(s, i, e, rest);
        if cs.len() > 1 {
            assert(s.skip(e + 1) =~= tail.skip(c.len() as int + 1));
            assert(tail.skip(c.len() as int + 1) =~= slashed(cs.drop_first()));
            let more = cs.drop_first();
            assert forall|k: int| 0 <= k < more.len() implies is_piece(#[trigger] more[k]) by {
                assert(more[k] == cs[k + 1]);
            }
            slashed_reads_back(s, e + 1, more);
            assert(seq![c] + more =~= cs);
        } else {
            assert(e == s.len());
            assert(rest =~= Seq::<(int, int)>::empty());
            assert(seq![c] + at_spans(s, rest) =~= cs);
        }
    }
}

/// The normal form names the same path.
pub proof fn normal_has_the_same_components(s: Seq<char>)
    ensures
        components(normal(s)) == components(s),
{
    let n = normal(s);
    if is_absolute(s) {
        at_spans_cons(s, 0, 1, spans_from(s, 0));
        spans_are_pieces(s, 0);
        let cs = at_spans(s, spans_from(s, 0));
        let root = s.subrange(0, 1);
        assert(root =~= seq!['/']);
        assert(components(s).drop_first() =~= cs);
        assert(n[0] == '/');
        assert(n.skip(1) =~= slashed(cs));
        slashed_reads_back(n, 1, cs);
        assert(next_slash(n, 0) == 0);
        at_spans_cons(n, 0, 1, spans_from(n, 0));
        assert(n.subrange(0, 1) =~= seq!['/']);
    } else {
        spans_are_pieces(s, 0);
        let cs = components(s);
        assert(n.skip(0) =~= n);
        slashed_reads_back(n, 0, cs);
        if is_absolute(n) {
            let c = cs[0];
            assert(cs.len() > 0);
            assert(n[0] == c[0]);
            assert(c.contains(c[0]));
            if c == seq!['.'] {
                assert(c[0] == '.');
            }
            assert(is_piece(cs[0]) || cs[0] == seq!['.']);
        }
    }
}

/// Two texts name the same path exactly where their normal forms are the same.
pub proof fn same_path_iff_same_normal(a: Seq<char>, b: Seq<char>)
    ensures
        normal(a) == normal(b) <==> components(a) == components(b),
{
    normal_has_the_same_components(a);
    normal_has_the_same_components(b);
    if components(a) == components(b) {
        root_is_in_the_components(a);
        root_is_in_the_components(b);
    }
}

proof fn root_is_in_the_components(s: Seq<char>)
    ensures
        is_absolute(s) <==> components(s).len() > 0 && components(s)[0] == seq!['/'],
{
    spans_are_pieces(s, 0);
    if is_absolute(s) {
        at_spans_cons(s, 0, 1, spans_from(s, 0));
        assert(s.subrange(0, 1) =~= seq!['/']);
    } else if components(s).len() > 0 && components(s)[0] == seq!['/'] {
        let c = components(s)[0];
        assert(is_piece(c) || c == seq!['.']);
        assert(c[0] == '/');
        assert(c.contains(c[0]));
        if c == seq!['.'] {
            assert(c[0] == '.');
        }
    }
}

proof fn slashed_push(cs: Seq<Seq<char>>, c: Seq<char>)
    requires
        cs.len() > 0,
    ensures
        slashed(cs.push(c)) == slashed(cs).push('/') + c,
    decreases cs.len(),
{
    let all = cs.push(c);
    if cs.len() == 1 {
        assert(all.drop_first() =~= seq![c]);
        reveal_with_fuel(slashed, 2);
        assert(slashed(all) =~= slashed(cs).push('/') + c);
    } else {
        assert(all.drop_first() =~= cs.drop_first().push(c));
        slashed_push(cs.drop_first(), c);
        assert(slashed(all) =~= slashed(cs).push('/') + c);
    }
}

/// The shortest text that names the same path.
pub fn normalized(path: &str) -> (out: String)
    ensures
        out@ == normal(path@),
{
    let p = chars_of(path);
    let ps = component_spans(&p);
    let ghost all = components(path@);
    let mut out = String::new();
    let mut i: usize = 0;
    let absolute: bool = p.len() > 0 && p[0] == '/';
    proof {
        spans_are_ordered(path@);
        assert(span_values(ps@).len() == ps@.len());
        root_is_in_the_components(path@);
    }
    if absolute {
        out.push('/');
        i = 1;
    }
    let first: usize = i;
    let ghost lead = out@;
    let ghost cs = all.skip(first as int);
    proof {
        assert(cs =~= (if absolute {
            all.drop_first()
        } else {
            all
        }));
        assert(cs.take(0) =~= Seq::<Seq<char>>::empty());
        assert(out@ =~= lead + slashed(cs.take(0)));
    }
    while i < ps.len()
        invariant
            p@ == path@,
            span_values(ps@) == spans(path@),
            all == components(path@),
            all.len() == ps@.len(),
            first <= i <= ps@.len(),
            cs == all.skip(first as int),
            forall|k: int|
                0 <= k < ps@.len() ==> 0 <= (#[trigger] spans(path@)[k]).0 < spans(path@)[k].1
                    <= path@.len(),
            out@ == lead + slashed(cs.take(i - first)),
        decreases ps@.len() - i,
    {
        assert(spans(path@)[i as int] == (ps@[i as int].0 as int, ps@[i as int].1 as int));
        let c = text_of(&p, ps[i].0, ps[i].1);
        let ghost held = cs.take(i - first);
        proof {
            assert(c@ == all[i as int]);
            assert(cs.take(i + 1 - first) =~= held.push(c@));
            if i > first {
                slashed_push(held, c@);
            } else {
                assert(held.push(c@) =~= seq![c@]);
            }
        }
        if i > first {
            out.push('/');
        }
        out.append(c.as_str());
        i += 1;
        assert(out@ =~= lead + slashed(cs.take(i - first)));
    }
    proof {
        assert(cs.take(i - first) =~= cs);
        if !absolute {
            assert(lead + slashed(cs) =~= slashed(cs));
        }
    }
    out
}

/// The kinds of components in the order in which they sort.
pub open spec fn component_rank(c: Seq<char>) -> int {
    if c == seq!['/'] {
        0
    } else if c == seq!['.'] {
        1
    } else if c == seq!['.', '.'] {
        2
    } else {
        3
    }
}

/// The order of components: the root, `.`, `..`, and then names as strings.
pub open spec fn component_precedes(a: Seq<char>, b: Seq<char>) -> bool {
    component_rank(a) < component_rank(b) || (component_rank(a) == component_rank(b) && precedes(
        a,
        b,
    ))
}

/// The order of sequences of components: by the first that differs, else the shorter first.
pub open spec fn components_precede(a: Seq<Seq<char>>, b: Seq<Seq<char>>) -> bool
    decreases a.len(),
{
    if b.len() == 0 {
        false
    } else if a.len() == 0 {
        true
    } else if a[0] == b[0] {
        components_precede(a.drop_first(), b.drop_first())
    } else {
        component_precedes(a[0], b[0])
    }
}

/// The order of paths, component by component.
pub open spec fn path_precedes(a: Seq<char>, b: Seq<char>) -> bool {
    components_precede(components(a), components(b))
}

/// A path does not come before itself.
pub proof fn components_precede_irreflexive(a: Seq<Seq<char>>)
    ensures
        !components_precede(a, a),
    decreases a.len(),
{
    if a.len() > 0 {
        components_precede_irreflexive(a.drop_first());
    }
}

/// The order of paths is transitive.
pub proof fn components_precede_transitive(a: Seq<Seq<char>>, b: Seq<Seq<char>>, c: Seq<Seq<char>>)
    requires
        components_precede(a, b),
        components_precede(b, c),
    ensures
        components_precede(a, c),
    decreases a.len(),
{
    if a.len() > 0 {
        if a[0] == b[0] && b[0] == c[0] {
            components_precede_transitive(a.drop_first(), b.drop_first(), c.drop_first());
        } else if a[0] != b[0] && b[0] != c[0] {
            if precedes(a[0], b[0]) && precedes(b[0], c[0]) {
                precedes_transitive(a[0], b[0], c[0]);
            }
            precedes_irreflexive(a[0]);
        }
    }
}

/// Of two different paths one comes before the other.
pub proof fn components_precede_total(a: Seq<Seq<char>>, b: Seq<Seq<char>>)
    requires
        a != b,
    ensures
        components_precede(a, b) || components_precede(b, a),
    decreases a.len(),
{
    if a.len() > 0 && b.len() > 0 {
        if a[0] == b[0] {
            assert(a =~= seq![a[0]] + a.drop_first());
            assert(b =~= seq![b[0]] + b.drop_first());
            components_precede_total(a.drop_first(), b.drop_first());
        } else {
            precedes_total(a[0], b[0]);
        }
    } else if a.len() == 0 && b.len() == 0 {
        assert(a =~= b);
    }
}

proof fn components_precede_at(a: Seq<Seq<char>>, b: Seq<Seq<char>>, k: int)
    requires
        0 <= k <= a.len(),
        k <= b.len(),
        forall|i: int| 0 <= i < k ==> a[i] == b[i],
    ensures
        components_precede(a, b) == components_precede(a.skip(k), b.skip(k)),
    decreases k,
{
    if k > 0 {
        let x = a.drop_first();
        let y = b.drop_first();
        assert forall|i: int| 0 <= i < k - 1 implies x[i] == y[i] by {
            assert(a[i + 1] == b[i + 1]);
        }
        components_precede_at(x, y, k - 1);
        assert(x.skip(k - 1) =~= a.skip(k));
        assert(y.skip(k - 1) =~= b.skip(k));
    } else {
        assert(a.skip(0) =~= a);
        assert(b.skip(0) =~= b);
    }
}

fn rank_of(c: &Vec<char>) -> (r: u8)
    ensures
        r == component_rank(c@),
{
    proof {
        assert(c@.len() == 1 ==> c@ =~= seq![c@[0]]);
        assert(c@.len() == 2 ==> c@ =~= seq![c@[0], c@[1]]);
        assert(seq!['/'][0] == '/' && seq!['.'][0] == '.');
        assert(seq!['.', '.'][0] == '.' && seq!['.', '.'][1] == '.');
    }
    if c.len() == 1 && c[0] == '/' {
        0
    } else if c.len() == 1 && c[0] == '.' {
        1
    } else if c.len() == 2 && c[0] == '.' && c[1] == '.' {
        2
    } else {
        3
    }
}

/// The components of a path as strings.
pub fn component_texts(path: &str) -> (out: Vec<String>)
    ensures
        texts(out@) == components(path@),
{
    let p = chars_of(path);
    let ps = component_spans(&p);
    let mut out: Vec<String> = Vec::new();
    proof {
        spans_are_ordered(path@);
        assert(span_values(ps@).len() == ps@.len());
    }
    let mut i: usize = 0;
    while i < ps.len()
        invariant
            p@ == path@,
            span_values(ps@) == spans(path@),
            components(path@).len() == ps@.len(),
            i <= ps@.len(),
            out@.len() == i,
            forall|k: int|
                0 <= k < ps@.len() ==> 0 <= (#[trigger] spans(path@)[k]).0 < spans(path@)[k].1
                    <= path@.len(),
            forall|k: int| 0 <= k < i ==> (#[trigger] out@[k])@ == components(path@)[k],
        decreases ps@.len() - i,
    {
        assert(spans(path@)[i as int] == (ps@[i as int].0 as int, ps@[i as int].1 as int));
        out.push(text_of(&p, ps[i].0, ps[i].1));
        i += 1;
    }
    assert(texts(out@) =~= components(path@));
    out
}

/// Whether `a` comes before `b` in the order of paths.
pub fn path_before(a: &str, b: &str) -> (r: bool)
    ensures
        r == path_precedes(a@, b@),
{
    let x = component_texts(a);
    let y = component_texts(b);
    let ghost ca = components(a@);
    let ghost cb = components(b@);
    proof {
        assert(texts(x@).len() == x@.len());
        assert(texts(y@).len() == y@.len());
    }
    let mut i: usize = 0;
    while i < x.len() && i < y.len()
        invariant
            ca == components(a@),
            cb == components(b@),
            texts(x@) == ca,
            texts(y@) == cb,
            x@.len() == ca.len(),
            y@.len() == cb.len(),
            i <= x@.len(),
            i <= y@.len(),
            forall|k: int| 0 <= k < i ==> ca[k] == cb[k],
        decreases x@.len() - i,
    {
        assert(x@[i as int]@ == ca[i as int] && y@[i as int]@ == cb[i as int]);
        if !same(x[i].as_str(), y[i].as_str()) {
            proof {
                components_precede_at(ca, cb, i as int);
                assert(ca.skip(i as int)[0] == ca[i as int]);
                assert(cb.skip(i as int)[0] == cb[i as int]);
            }
            let rx: u8 = rank_of(&chars_of(x[i].as_str()));
            let ry: u8 = rank_of(&chars_of(y[i].as_str()));
            return rx < ry || (rx == ry && before(x[i].as_str(), y[i].as_str()));
        }
        i += 1;
    }
    proof {
        components_precede_at(ca, cb, i as int);
    }
    i < y.len()
}

/// Whether two texts name the same path.
pub fn same_path(a: &str, b: &str) -> (r: bool)
    ensures
        r == (components(a@) == components(b@)),
{
    let x = normalized(a);
    let y = normalized(b);
    proof {
        same_path_iff_same_normal(a@, b@);
    }
    same(x.as_str(), y.as_str())
}

/// No path comes before one that stands to its left.
pub open spec fn in_path_order(paths: Seq<Seq<char>>) -> bool {
    forall|i: int, j: int|
        0 <= i < j < paths.len() ==> !path_precedes(#[trigger] paths[j], #[trigger] paths[i])
}

proof fn not_before_transitive(a: Seq<char>, b: Seq<char>, c: Seq<char>)
    requires
        !path_precedes(b, a),
        !path_precedes(c, b),
    ensures
        !path_precedes(c, a),
{
    if path_precedes(c, a) {
        if components(a) != components(b) {
            components_precede_total(components(a), components(b));
            components_precede_transitive(components(c), components(a), components(b));
        }
    }
}

/// Two paths do not both come before each other.
pub proof fn path_precedes_asymmetric(a: Seq<char>, b: Seq<char>)
    requires
        path_precedes(a, b),
    ensures
        !path_precedes(b, a),
{
    if path_precedes(b, a) {
        components_precede_transitive(components(a), components(b), components(a));
        components_precede_irreflexive(components(a));
    }
}

/// The paths in their order.
pub fn sort_paths(paths: &Vec<String>) -> (out: Vec<String>)
    ensures
        in_path_order(texts(out@)),
        texts(out@).to_multiset() == texts(paths@).to_multiset(),
        out@.len() == paths@.len(),
{
    let mut out: Vec<String> = Vec::new();
    let mut i: usize = 0;
    proof {
        assert(texts(out@) =~= texts(paths@).take(0));
    }
    while i < paths.len()
        invariant
            i <= paths@.len(),
            out@.len() == i,
            in_path_order(texts(out@)),
            texts(out@).to_multiset() == texts(paths@).take(i as int).to_multiset(),
        decreases paths@.len() - i,
    {
        let ghost held = texts(out@);
        let ghost x = paths@[i as int]@;
        let mut at: usize = out.len();
        while at > 0 && path_before(paths[i].as_str(), out[at - 1].as_str())
            invariant
                i < paths@.len(),
                at <= out@.len(),
                held == texts(out@),
                x == paths@[i as int]@,
                forall|k: int| at <= k < held.len() ==> path_precedes(x, #[trigger] held[k]),
            decreases at,
        {
            at -= 1;
            assert(held[at as int] == out@[at as int]@);
        }
        proof {
            if at > 0 {
                assert(held[at - 1] == out@[at - 1]@);
            }
        }
        out.insert(at, paths[i].clone());
        proof {
            let now = texts(out@);
            assert(now =~= held.insert(at as int, x));
            held.to_multiset_ensures();
            assert(texts(paths@).take(i + 1) =~= texts(paths@).take(i as int).push(x));
            texts(paths@).take(i as int).to_multiset_ensures();
            to_multiset_insert(held, at as int, x);
            assert forall|j: int, k: int| 0 <= j < k < now.len() implies !path_precedes(
                #[trigger] now[k],
                #[trigger] now[j],
            ) by {
                if k == at {
                    assert(now[j] == held[j]);
                    if j < at - 1 {
                        assert(!path_precedes(held[at - 1], held[j]));
                        not_before_transitive(held[j], held[at - 1], x);
                    }
                } else if j == at {
                    assert(now[k] == held[k - 1]);
                    path_precedes_asymmetric(x, held[k - 1]);
                } else {
                    let a = if j < at { j } else { j - 1 };
                    let b = if k < at { k } else { k - 1 };
                    assert(now[j] == held[a] && now[k] == held[b]);
                }
            }
        }
        i += 1;
    }
    assert(texts(paths@).take(i as int) =~= texts(paths@));
    out
}

/// What is below a directory is what its path goes on with: a name in it, and in a
/// directory below it that directory with the name. Nothing is below a directory that is
/// not under it.
pub proof fn what_is_below_goes_on(base: Seq<char>, dir: Seq<char>, name: Seq<char>)
    requires
        dir.len() > 0,
        dir.last() != '/',
        name.len() > 0,
        !name.contains('/'),
        name != seq!['.'],
    ensures
        below(dir.push('/') + name, dir) == Some(name),
        below(base, base) == Some(Seq::<char>::empty()),
        below(dir, base) is Some <==> is_under(dir, base),
        below(dir, base) is Some && below(dir, base)->Some_0.len() > 0 && spans(dir).last().1
            == dir.len() ==> below(dir.push('/') + name, base) == Some(
            below(dir, base)->Some_0 + seq!['/'] + name,
        ),
{
    let s = dir.push('/') + name;
    let n = components(dir).len() as int;
    a_name_is_one_component_more(dir, name);
    spans_are_ordered(dir);
    assert(components(s).take(n) =~= components(dir));
    assert(spans(s)[n] == spans(s).last());
    assert(s.subrange(dir.len() as int + 1, s.len() as int) =~= name);
    assert(components(base).take(components(base).len() as int) =~= components(base));
    if below(dir, base) is Some && below(dir, base)->Some_0.len() > 0 && spans(dir).last().1
        == dir.len() {
        let b = components(base).len() as int;
        assert(components(s).take(b) =~= components(dir).take(b));
        assert(spans(s)[b] == spans(dir)[b]);
        assert(s.subrange(spans(dir)[b].0, s.len() as int) =~= dir.subrange(
            spans(dir)[b].0,
            dir.len() as int,
        ) + seq!['/'] + name);
    }
}

/// What is stripped of its base is what is below it, and a path is stripped exactly where
/// it is under the base.
pub proof fn a_path_is_stripped_of_its_directory(
    path: &str,
    base: &str,
    dir: Seq<char>,
    name: Seq<char>,
    r: Option<String>,
)
    requires
        call_ensures(strip_base, (path, base), r),
        dir.len() > 0,
        dir.last() != '/',
        name.len() > 0,
        !name.contains('/'),
        name != seq!['.'],
    ensures
        r is Some <==> components(base@).is_prefix_of(components(path@)),
        path@ == dir.push('/') + name && base@ == dir ==> r is Some && r->Some_0@ == name,
{
    what_is_below_goes_on(base@, dir, name);
    under_is_of_whole_components(path@, base@, dir, name);
}

/// A name is joined to a directory with one slash between them, and an absolute path takes
/// the place of the directory.
pub proof fn a_name_is_joined_with_one_slash(base: &str, rest: &str, out: String)
    requires
        call_ensures(join, (base, rest), out),
    ensures
        rest@.len() > 0 && rest@[0] == '/' ==> out@ == rest@,
        !(rest@.len() > 0 && rest@[0] == '/') && base@.len() > 0 && base@.last() != '/' ==> out@
            == base@ + seq!['/'] + rest@,
        !(rest@.len() > 0 && rest@[0] == '/') && base@.len() > 0 && base@.last() == '/' ==> out@
            == base@ + rest@,
        !(rest@.len() > 0 && rest@[0] == '/') && base@.len() == 0 ==> out@ == rest@,
{
    assert(base@.push('/') + rest@ =~= base@ + seq!['/'] + rest@);
    assert(base@.len() == 0 ==> base@ + rest@ =~= rest@);
}

proof fn components_precede_behind(a: Seq<Seq<char>>, b: Seq<Seq<char>>, i: int)
    requires
        0 <= i <= a.len(),
        i <= b.len(),
        forall|k: int| 0 <= k < i ==> a[k] == b[k],
    ensures
        components_precede(a, b) == components_precede(a.skip(i), b.skip(i)),
    decreases i,
{
    if i > 0 {
        let c = a.drop_first();
        let d = b.drop_first();
        assert forall|k: int| 0 <= k < i - 1 implies c[k] == d[k] by {
            assert(a[k + 1] == b[k + 1]);
        }
        components_precede_behind(c, d, i - 1);
        assert(c.skip(i - 1) =~= a.skip(i));
        assert(d.skip(i - 1) =~= b.skip(i));
    } else {
        assert(a.skip(0) =~= a);
        assert(b.skip(0) =~= b);
    }
}

/// Which of two paths comes first is told by the first component in which they differ:
/// the root, `.` and `..` come before all names, in this order, and names are ordered as
/// texts. A directory comes before what is below it.
pub proof fn the_first_other_component_decides(a: &str, b: &str, r: bool, i: int)
    requires
        call_ensures(path_before, (a, b), r),
        0 <= i <= components(a@).len(),
        i <= components(b@).len(),
        forall|k: int| 0 <= k < i ==> components(a@)[k] == components(b@)[k],
    ensures
        i == components(a@).len() ==> (r <==> components(a@).len() < components(b@).len()),
        i == components(b@).len() ==> !r,
        i < components(a@).len() && i < components(b@).len() && components(a@)[i] != components(
            b@,
        )[i] ==> {
            let x = components(a@)[i];
            let y = components(b@)[i];
            let is_name = |c: Seq<char>| c != seq!['/'] && c != seq!['.'] && c != seq!['.', '.'];
            &&& is_name(x) && is_name(y) ==> (r <==> precedes(x, y))
            &&& !is_name(x) && is_name(y) ==> r
            &&& is_name(x) && !is_name(y) ==> !r
            &&& x == seq!['/'] ==> r
            &&& x == seq!['.'] && y == seq!['.', '.'] ==> r
        },
{
    let x = components(a@);
    let y = components(b@);
    components_precede_behind(x, y, i);
    assert(i < x.len() ==> x.skip(i)[0] == x[i]);
    assert(i < y.len() ==> y.skip(i)[0] == y[i]);
    assert(seq!['/'][0] == '/' && seq!['.'][0] == '.');
    assert(seq!['.', '.'].len() == 2);
}

} // verus!
