//! Unix paths as byte strings: their names, joining two of them, and taking a
//! prefix off.

use vstd::prelude::*;
use vstd::slice::{slice_subrange, slice_to_vec};

verus! {

/// The separator between the parts of a path.
pub const SLASH: u8 = 47;

/// The byte that starts an extension, and that alone names the directory
/// itself.
pub const DOT: u8 = 46;

/// The bytes of a list of paths.
pub open spec fn path_texts(list: Seq<Vec<u8>>) -> Seq<Seq<u8>> {
    list.map_values(|p: Vec<u8>| p@)
}

/// Where the part of `p` that starts at `i` ends: at the next separator, or at
/// the end.
pub open spec fn part_end(p: Seq<u8>, i: int) -> int
    decreases p.len() - i,
{
    if i < 0 || i >= p.len() || p[i] == SLASH {
        i
    } else {
        part_end(p, i + 1)
    }
}

/// A part of a path that names something: neither empty nor a single dot.
pub open spec fn is_name(part: Seq<u8>) -> bool {
    part.len() > 0 && part != seq![DOT]
}

/// The parts of `p` from position `start` on that name something, each by where
/// it starts and ends.
pub open spec fn spans_from(p: Seq<u8>, start: int) -> Seq<(int, int)>
    decreases p.len() + 1 - start,
{
    if start < 0 || start > p.len() {
        seq![]
    } else {
        proof {
            lemma_part_end(p, start);
        }
        let end = part_end(p, start);
        let here = if is_name(p.subrange(start, end)) {
            seq![(start, end)]
        } else {
            seq![]
        };
        here + spans_from(p, end + 1)
    }
}

/// The parts of `p` that name something, in order.
pub open spec fn spans(p: Seq<u8>) -> Seq<(int, int)> {
    spans_from(p, 0)
}

/// The text of one part.
pub open spec fn span_text(p: Seq<u8>, span: (int, int)) -> Seq<u8> {
    p.subrange(span.0, span.1)
}

/// The names on the way that `p` describes, in order.
pub open spec fn names(p: Seq<u8>) -> Seq<Seq<u8>> {
    spans(p).map_values(|span: (int, int)| span_text(p, span))
}

/// Where the way starts: at the root, at the current directory named by a dot,
/// or at the first name.
#[derive(PartialEq, Eq, Structural, Clone, Copy, Debug)]
pub enum Anchor {
    Root,
    Dot,
    Bare,
}

pub open spec fn anchor_of(p: Seq<u8>) -> Anchor {
    if p.len() > 0 && p[0] == SLASH {
        Anchor::Root
    } else if p.len() > 0 && p[0] == DOT && (p.len() == 1 || p[1] == SLASH) {
        Anchor::Dot
    } else {
        Anchor::Bare
    }
}

/// The last name of `p`; none where `p` names nothing or ends in `..`.
pub open spec fn file_name_of(p: Seq<u8>) -> Option<Seq<u8>> {
    if names(p).len() == 0 || names(p).last() == parent_name() {
        None
    } else {
        Some(names(p).last())
    }
}

/// Where the last dot of `name` is; -1 where there is none.
pub open spec fn last_dot(name: Seq<u8>) -> int
    decreases name.len(),
{
    if name.len() == 0 {
        -1
    } else if name.last() == DOT {
        name.len() - 1
    } else {
        last_dot(name.drop_last())
    }
}

/// What follows the last dot of the file name; none where there is no file
/// name, no dot in it, or none but at its first byte.
pub open spec fn extension_of(p: Seq<u8>) -> Option<Seq<u8>> {
    match file_name_of(p) {
        Some(name) => if last_dot(name) > 0 {
            Some(name.skip(last_dot(name) + 1))
        } else {
            None
        },
        None => None,
    }
}

/// `add` as seen from `base`: itself where it starts at the root, else `base`,
/// a separator where `base` lacks one, and `add`.
pub open spec fn joined(base: Seq<u8>, add: Seq<u8>) -> Seq<u8> {
    if add.len() > 0 && add[0] == SLASH {
        add
    } else if base.len() == 0 || base.last() == SLASH {
        base + add
    } else {
        base + seq![SLASH] + add
    }
}

/// `base` leads to a place from which `p` goes on: both start alike, and the
/// names of `base` are the first names of `p`.
pub open spec fn leads_to(base: Seq<u8>, p: Seq<u8>) -> bool {
    anchor_of(base) == anchor_of(p) && names(base).is_prefix_of(names(p))
}

/// The text of `p` from its name number `k` to the end of its last name.
pub open spec fn names_from(p: Seq<u8>, k: int) -> Seq<u8> {
    if k < spans(p).len() {
        p.subrange(spans(p)[k].0, spans(p).last().1)
    } else {
        seq![]
    }
}

/// What is left of `p` behind `base`; none where `base` does not lead to it.
pub open spec fn relative_to(p: Seq<u8>, base: Seq<u8>) -> Option<Seq<u8>> {
    if leads_to(base, p) {
        Some(names_from(p, names(base).len() as int))
    } else {
        None
    }
}

/// A part ends at the first separator at or after where it starts, or at the
/// end of the path.
pub proof fn lemma_part_end(p: Seq<u8>, i: int)
    requires
        0 <= i <= p.len(),
    ensures
        i <= part_end(p, i) <= p.len(),
        part_end(p, i) < p.len() ==> p[part_end(p, i)] == SLASH,
        forall|j: int| i <= j < part_end(p, i) ==> #[trigger] p[j] != SLASH,
    decreases p.len() - i,
{
    if i < p.len() && p[i] != SLASH {
        lemma_part_end(p, i + 1);
    }
}

proof fn lemma_part_end_at(p: Seq<u8>, i: int, end: int)
    requires
        0 <= i <= end <= p.len(),
        end < p.len() ==> p[end] == SLASH,
        forall|j: int| i <= j < end ==> #[trigger] p[j] != SLASH,
    ensures
        part_end(p, i) == end,
    decreases end - i,
{
    if i < end {
        lemma_part_end_at(p, i + 1, end);
    }
}

proof fn lemma_spans(p: Seq<u8>, start: int)
    requires
        0 <= start,
    ensures
        forall|k: int|
            0 <= k < spans_from(p, start).len() ==> {
                let span = #[trigger] spans_from(p, start)[k];
                start <= span.0 < span.1 <= p.len() && is_name(span_text(p, span))
            },
        forall|k: int, l: int|
            0 <= k < l < spans_from(p, start).len() ==> (#[trigger] spans_from(p, start)[k]).1 < (
            #[trigger] spans_from(p, start)[l]).0,
    decreases p.len() + 1 - start,
{
    if start <= p.len() {
        lemma_part_end(p, start);
        let end = part_end(p, start);
        let rest = spans_from(p, end + 1);
        lemma_spans(p, end + 1);
        let all = spans_from(p, start);
        if is_name(p.subrange(start, end)) {
            assert(all == seq![(start, end)] + rest);
            assert(forall|k: int| 1 <= k < all.len() ==> #[trigger] all[k] == rest[k - 1]);
        } else {
            assert(all == rest);
        }
    }
}

/// `span` is where name number `k` of `p` stands.
spec fn is_span_of(p: Seq<u8>, span: (usize, usize), k: int) -> bool {
    &&& span.0 < span.1 <= p.len()
    &&& names(p)[k] == p.subrange(span.0 as int, span.1 as int)
}

/// The parts of `p` that name something.
fn find_spans(p: &[u8]) -> (found: Vec<(usize, usize)>)
    ensures
        found@.len() == spans(p@).len(),
        forall|k: int|
            0 <= k < found@.len() ==> (found@[k].0 as int, found@[k].1 as int) == #[trigger] spans(
                p@,
            )[k],
        names(p@).len() == found@.len(),
        forall|k: int| 0 <= k < found@.len() ==> is_span_of(p@, #[trigger] found@[k], k),
{
    let mut found: Vec<(usize, usize)> = Vec::new();
    let mut start: usize = 0;
    let ghost mut done: Seq<(int, int)> = seq![];
    loop
        invariant_except_break
            start <= p.len(),
            done + spans_from(p@, start as int) == spans(p@),
        invariant
            found@.len() == done.len(),
            forall|k: int|
                0 <= k < found@.len() ==> (found@[k].0 as int, found@[k].1 as int)
                    == #[trigger] done[k],
        ensures
            done == spans(p@),
        decreases p.len() - start,
    {
        let mut end: usize = start;
        while end < p.len() && p[end] != SLASH
            invariant
                start <= end <= p.len(),
                forall|j: int| start <= j < end ==> #[trigger] p@[j] != SLASH,
            decreases p.len() - end,
        {
            end += 1;
        }
        proof {
            lemma_part_end_at(p@, start as int, end as int);
        }
        let ghost part = p@.subrange(start as int, end as int);
        let named: bool = end > start && !(end - start == 1 && p[start] == DOT);
        proof {
            if end - start == 1 {
                assert(part[0] == p@[start as int]);
                assert(p@[start as int] == DOT ==> part =~= seq![DOT]);
            }
        }
        if named {
            found.push((start, end));
            proof {
                let ghost before = done;
                done = done.push((start as int, end as int));
                assert(done + spans_from(p@, end + 1) == before + (seq![(start as int, end as int)]
                    + spans_from(p@, end + 1)));
            }
        } else {
            assert(seq![] + spans_from(p@, end + 1) == spans_from(p@, end + 1));
        }
        if end == p.len() {
            assert(done + spans_from(p@, end + 1) == done);
            break;
        }
        start = end + 1;
    }
    proof {
        lemma_spans(p@, 0);
        assert forall|k: int| 0 <= k < found@.len() implies is_span_of(
            p@,
            #[trigger] found@[k],
            k,
        ) by {
            assert(spans(p@)[k] == (found@[k].0 as int, found@[k].1 as int));
        }
    }
    found
}

/// Whether two byte strings are the same.
pub fn same_bytes(a: &[u8], b: &[u8]) -> (yes: bool)
    ensures
        yes == (a@ == b@),
{
    if a.len() != b.len() {
        return false;
    }
    let mut i: usize = 0;
    while i < a.len()
        invariant
            a.len() == b.len(),
            i <= a.len(),
            forall|j: int| 0 <= j < i ==> #[trigger] a@[j] == b@[j],
        decreases a.len() - i,
    {
        if a[i] != b[i] {
            return false;
        }
        i += 1;
    }
    assert(a@ =~= b@);
    true
}

/// Where the way that `p` describes starts.
fn anchor(p: &[u8]) -> (start: Anchor)
    ensures
        start == anchor_of(p@),
{
    if p.len() > 0 && p[0] == SLASH {
        Anchor::Root
    } else if p.len() > 0 && p[0] == DOT && (p.len() == 1 || p[1] == SLASH) {
        Anchor::Dot
    } else {
        Anchor::Bare
    }
}

/// The last name of a path, if it has one that is not `..`.
pub fn file_name(p: &[u8]) -> (name: Option<Vec<u8>>)
    ensures
        name.is_some() == file_name_of(p@).is_some(),
        name matches Some(text) ==> Some(text@) == file_name_of(p@),
{
    let found = find_spans(p);
    if found.len() == 0 {
        return None;
    }
    let last: (usize, usize) = found[found.len() - 1];
    assert(is_span_of(p@, last, found@.len() - 1));
    let text = slice_subrange(p, last.0, last.1);
    if is_parent_name(text) {
        return None;
    }
    Some(slice_to_vec(text))
}

proof fn lemma_last_dot(name: Seq<u8>, at: int)
    requires
        -1 <= at < name.len(),
        at >= 0 ==> name[at] == DOT,
        forall|j: int| at < j < name.len() ==> #[trigger] name[j] != DOT,
    ensures
        last_dot(name) == at,
    decreases name.len(),
{
    if at < name.len() - 1 {
        lemma_last_dot(name.drop_last(), at);
    }
}

/// What follows the last dot of a path's file name, if that dot is not its
/// first byte.
pub fn extension(p: &[u8]) -> (ext: Option<Vec<u8>>)
    ensures
        ext.is_some() == extension_of(p@).is_some(),
        ext matches Some(text) ==> Some(text@) == extension_of(p@),
{
    match file_name(p) {
        None => None,
        Some(name) => {
            let mut at: usize = name.len();
            while at > 0 && name[at - 1] != DOT
                invariant
                    at <= name.len(),
                    forall|j: int| at <= j < name.len() ==> #[trigger] name@[j] != DOT,
                decreases at,
            {
                at -= 1;
            }
            proof {
                lemma_last_dot(name@, at - 1);
            }
            if at > 1 {
                let text = slice_subrange(name.as_slice(), at, name.len());
                assert(text@ == name@.skip(at as int));
                Some(slice_to_vec(text))
            } else {
                None
            }
        },
    }
}

/// `add` as seen from `base`.
pub fn join(base: &[u8], add: &[u8]) -> (path: Vec<u8>)
    ensures
        path@ == joined(base@, add@),
{
    if add.len() > 0 && add[0] == SLASH {
        return slice_to_vec(add);
    }
    let mut path = slice_to_vec(base);
    if base.len() > 0 && base[base.len() - 1] != SLASH {
        path.push(SLASH);
        assert(path@ == base@ + seq![SLASH]);
    }
    let mut rest = slice_to_vec(add);
    path.append(&mut rest);
    path
}

/// What is left of `p` behind `base`, if `base` leads to `p`.
pub fn strip_prefix(p: &[u8], base: &[u8]) -> (rest: Option<Vec<u8>>)
    requires
        base@.len() > 0,
    ensures
        rest.is_some() == relative_to(p@, base@).is_some(),
        rest matches Some(text) ==> Some(text@) == relative_to(p@, base@),
{
    if anchor(p) != anchor(base) {
        return None;
    }
    let own = find_spans(p);
    let lead = find_spans(base);
    if lead.len() > own.len() {
        return None;
    }
    let mut k: usize = 0;
    while k < lead.len()
        invariant
            k <= lead.len() <= own.len(),
            own@.len() == names(p@).len(),
            lead@.len() == names(base@).len(),
            forall|i: int| 0 <= i < own@.len() ==> is_span_of(p@, #[trigger] own@[i], i),
            forall|i: int| 0 <= i < lead@.len() ==> is_span_of(base@, #[trigger] lead@[i], i),
            forall|i: int| 0 <= i < k ==> #[trigger] names(p@)[i] == names(base@)[i],
        decreases lead.len() - k,
    {
        let mine: (usize, usize) = own[k];
        let theirs: (usize, usize) = lead[k];
        assert(is_span_of(p@, mine, k as int));
        assert(is_span_of(base@, theirs, k as int));
        let a = slice_subrange(p, mine.0, mine.1);
        let b = slice_subrange(base, theirs.0, theirs.1);
        if !same_bytes(a, b) {
            return None;
        }
        k += 1;
    }
    assert(names(base@).is_prefix_of(names(p@)));
    if k < own.len() {
        let first: (usize, usize) = own[k];
        let last: (usize, usize) = own[own.len() - 1];
        assert(is_span_of(p@, last, own@.len() - 1));
        proof {
            lemma_spans(p@, 0);
            assert(spans(p@)[k as int] == (first.0 as int, first.1 as int));
            assert(spans(p@)[own@.len() - 1] == (last.0 as int, last.1 as int));
        }
        Some(slice_to_vec(slice_subrange(p, first.0, last.1)))
    } else {
        Some(Vec::new())
    }
}

/// Whether `p` starts at the root.
pub fn is_rooted(p: &[u8]) -> (yes: bool)
    ensures
        yes == (anchor_of(p@) == Anchor::Root),
{
    anchor(p) == Anchor::Root
}

/// A path with a name in it is not empty.
pub proof fn lemma_named_is_not_empty(p: Seq<u8>)
    requires
        names(p).len() > 0,
    ensures
        p.len() > 0,
{
    lemma_spans(p, 0);
    assert(spans(p)[0].0 < spans(p)[0].1);
}

/// A path is tidy when it starts with its first name and ends with its last.
pub open spec fn is_tidy(p: Seq<u8>) -> bool {
    spans(p).len() > 0 && spans(p)[0].0 == 0 && spans(p).last().1 == p.len()
}

spec fn shifted(found: Seq<(int, int)>, by: int) -> Seq<(int, int)> {
    found.map_values(|span: (int, int)| (span.0 + by, span.1 + by))
}

proof fn lemma_spans_behind(front: Seq<u8>, p: Seq<u8>, start: int)
    requires
        0 <= start,
    ensures
        spans_from(front + p, front.len() + start) == shifted(
            spans_from(p, start),
            front.len() as int,
        ),
    decreases p.len() + 1 - start,
{
    let whole = front + p;
    let by = front.len() as int;
    if start <= p.len() {
        lemma_part_end(p, start);
        let end = part_end(p, start);
        assert forall|j: int| by + start <= j < by + end implies #[trigger] whole[j] != SLASH by {
            assert(whole[j] == p[j - by]);
        }
        lemma_part_end_at(whole, by + start, by + end);
        assert(whole.subrange(by + start, by + end) == p.subrange(start, end));
        lemma_spans_behind(front, p, end + 1);
        let rest = spans_from(p, end + 1);
        if is_name(p.subrange(start, end)) {
            assert(shifted(seq![(start, end)] + rest, by) == seq![(by + start, by + end)]
                + shifted(rest, by));
        } else {
            assert(seq![] + rest == rest);
            assert(seq![] + shifted(rest, by) == shifted(rest, by));
        }
    } else {
        assert(shifted(seq![], by) == Seq::<(int, int)>::empty());
    }
}

proof fn lemma_spans_split(a: Seq<u8>, b: Seq<u8>, start: int)
    requires
        0 <= start <= a.len(),
    ensures
        spans_from(a + seq![SLASH] + b, start) == spans_from(a, start) + shifted(
            spans(b),
            a.len() as int + 1,
        ),
    decreases a.len() - start,
{
    let front = a + seq![SLASH];
    let whole = front + b;
    let tail = shifted(spans(b), a.len() as int + 1);
    lemma_part_end(a, start);
    let end = part_end(a, start);
    assert forall|j: int| start <= j < end implies #[trigger] whole[j] != SLASH by {
        assert(whole[j] == a[j]);
    }
    assert(whole[end] == SLASH);
    lemma_part_end_at(whole, start, end);
    assert(whole.subrange(start, end) == a.subrange(start, end));
    let here = if is_name(a.subrange(start, end)) {
        seq![(start, end)]
    } else {
        seq![]
    };
    if end < a.len() {
        lemma_spans_split(a, b, end + 1);
        assert(here + (spans_from(a, end + 1) + tail) == (here + spans_from(a, end + 1)) + tail);
    } else {
        lemma_spans_behind(front, b, 0);
        assert(spans_from(a, end + 1) == Seq::<(int, int)>::empty());
        assert(here + tail == (here + spans_from(a, end + 1)) + tail);
    }
}

/// The names of `base` come first in a path joined onto it, and then those of
/// what was joined.
proof fn lemma_joined_spans(base: Seq<u8>, add: Seq<u8>)
    requires
        base.len() > 0,
        add.len() == 0 || add[0] != SLASH,
    ensures
        spans(joined(base, add)) == spans(base) + shifted(
            spans(add),
            joined(base, add).len() - add.len(),
        ),
{
    if base.last() == SLASH {
        let a = base.drop_last();
        assert(base == a + seq![SLASH] + Seq::<u8>::empty());
        lemma_spans_split(a, Seq::<u8>::empty(), 0);
        lemma_part_end(Seq::<u8>::empty(), 0);
        assert(spans(Seq::<u8>::empty()) == Seq::<(int, int)>::empty()) by {
            assert(spans_from(Seq::<u8>::empty(), 1) == Seq::<(int, int)>::empty());
        }
        assert(shifted(Seq::<(int, int)>::empty(), a.len() as int + 1) == Seq::<(int, int)>::empty());
        assert(spans(base) == spans(a));
        assert(joined(base, add) == a + seq![SLASH] + add);
        lemma_spans_split(a, add, 0);
    } else {
        lemma_spans_split(base, add, 0);
    }
}

/// A tidy path does not start at the root.
pub proof fn lemma_tidy_is_relative(p: Seq<u8>)
    requires
        is_tidy(p),
    ensures
        p.len() > 0,
        p[0] != SLASH,
{
    lemma_spans(p, 0);
    lemma_part_end(p, 0);
    if p[0] == SLASH {
        assert(part_end(p, 0) == 0);
        assert(p.subrange(0, 0).len() == 0);
        assert(spans(p) == seq![] + spans_from(p, 1));
        assert(spans(p) == spans_from(p, 1));
        lemma_spans(p, 1);
    }
}

/// Joining a tidy relative path onto a directory and then taking the directory
/// off again gives the relative path back.
pub proof fn law_join_then_strip(base: Seq<u8>, rel: Seq<u8>)
    requires
        base.len() > 0,
        is_tidy(rel),
    ensures
        relative_to(joined(base, rel), base) == Some(rel),
{
    lemma_tidy_is_relative(rel);
    lemma_joined_names(base, rel);
    let p = joined(base, rel);
    let by = p.len() - rel.len();
    let n = names(base).len() as int;
    assert(names(base) =~= names(p).take(n));
    assert(names_from(p, n) == rel) by {
        lemma_joined_spans(base, rel);
        assert(spans(p)[n] == (by, spans(rel)[0].1 + by));
        assert(spans(p).last() == (spans(rel).last().0 + by, p.len() as int));
        assert(p.subrange(by, p.len() as int) =~= rel);
    }
}

/// The last name of a path is the one that was joined onto it.
pub proof fn lemma_joined_file_name(base: Seq<u8>, name: Seq<u8>)
    requires
        base.len() > 0,
        is_name(name),
        name != parent_name(),
        forall|i: int| 0 <= i < name.len() ==> #[trigger] name[i] != SLASH,
    ensures
        file_name_of(joined(base, name)) == Some(name),
{
    lemma_joined_names(base, name);
    lemma_name_alone(name);
    assert(names(joined(base, name)).last() == name);
}

/// Different relative paths stay different when they are joined onto the same
/// directory.
pub proof fn lemma_joined_is_injective(base: Seq<u8>, a: Seq<u8>, b: Seq<u8>)
    requires
        a.len() == 0 || a[0] != SLASH,
        b.len() == 0 || b[0] != SLASH,
        joined(base, a) == joined(base, b),
    ensures
        a == b,
{
    let p = joined(base, a);
    let by = joined(base, seq![]).len() as int;
    assert(p.skip(by) =~= a);
    assert(joined(base, b).skip(by) =~= b);
}

proof fn lemma_span_has_no_slash(p: Seq<u8>, start: int, k: int)
    requires
        0 <= start,
        0 <= k < spans_from(p, start).len(),
    ensures
        forall|j: int|
            spans_from(p, start)[k].0 <= j < spans_from(p, start)[k].1 ==> #[trigger] p[j] != SLASH,
    decreases p.len() + 1 - start,
{
    if start <= p.len() {
        lemma_part_end(p, start);
        let end = part_end(p, start);
        let rest = spans_from(p, end + 1);
        if is_name(p.subrange(start, end)) {
            assert(spans_from(p, start) == seq![(start, end)] + rest);
            if k > 0 {
                assert(spans_from(p, start)[k] == rest[k - 1]);
                lemma_span_has_no_slash(p, end + 1, k - 1);
            }
        } else {
            assert(spans_from(p, start) == seq![] + rest);
            assert(seq![] + rest == rest);
            lemma_span_has_no_slash(p, end + 1, k);
        }
    }
}

/// The name by which a path goes back to the directory above.
pub open spec fn parent_name() -> Seq<u8> {
    seq![DOT, DOT]
}

/// The way from `base` to `p` goes on from where `base` leads, and never back.
pub open spec fn lies_below(p: Seq<u8>, base: Seq<u8>) -> bool {
    &&& leads_to(base, p)
    &&& forall|i: int|
        names(base).len() <= i < names(p).len() ==> #[trigger] names(p)[i] != parent_name()
}

/// A path that leads somewhere inside any directory that it is joined onto: it
/// does not start at the root, has a name, and never goes back.
pub open spec fn is_inner(p: Seq<u8>) -> bool {
    anchor_of(p) != Anchor::Root && names(p).len() > 0 && !names(p).contains(parent_name())
}

fn is_parent_name(name: &[u8]) -> (yes: bool)
    ensures
        yes == (name@ == parent_name()),
{
    if name.len() == 2 && name[0] == DOT && name[1] == DOT {
        assert(name@ =~= parent_name());
        true
    } else {
        assert(name@.len() == 2 ==> name@[0] != DOT || name@[1] != DOT);
        false
    }
}

/// Whether one of the names of `p` goes back to the directory above.
pub fn goes_back(p: &[u8]) -> (yes: bool)
    ensures
        yes == names(p@).contains(parent_name()),
{
    let found = find_spans(p);
    let mut k: usize = 0;
    while k < found.len()
        invariant
            k <= found.len(),
            found@.len() == names(p@).len(),
            forall|i: int| 0 <= i < found@.len() ==> is_span_of(p@, #[trigger] found@[i], i),
            forall|i: int| 0 <= i < k ==> #[trigger] names(p@)[i] != parent_name(),
        decreases found.len() - k,
    {
        let span: (usize, usize) = found[k];
        assert(is_span_of(p@, span, k as int));
        let name = slice_subrange(p, span.0, span.1);
        if is_parent_name(name) {
            return true;
        }
        k += 1;
    }
    false
}

/// Whether `p` leads somewhere inside any directory that it is joined onto.
pub fn inner(p: &[u8]) -> (yes: bool)
    ensures
        yes == is_inner(p@),
{
    anchor(p) != Anchor::Root && find_spans(p).len() > 0 && !goes_back(p)
}

/// The names of a path joined onto a directory follow those of the directory,
/// and the way starts where that of the directory starts.
pub proof fn lemma_joined_names(base: Seq<u8>, add: Seq<u8>)
    requires
        base.len() > 0,
        add.len() == 0 || add[0] != SLASH,
    ensures
        names(joined(base, add)) == names(base) + names(add),
        anchor_of(joined(base, add)) == anchor_of(base),
{
    let p = joined(base, add);
    let by = p.len() - add.len();
    lemma_joined_spans(base, add);
    lemma_spans(base, 0);
    lemma_spans(add, 0);
    let n = spans(base).len() as int;
    assert forall|i: int| 0 <= i < names(p).len() implies #[trigger] names(p)[i] == (names(base)
        + names(add))[i] by {
        if i < n {
            let span = spans(base)[i];
            assert(spans(p)[i] == span);
            assert(span_text(base, span) =~= span_text(p, span));
        } else {
            let span = spans(add)[i - n];
            assert(spans(p)[i] == (span.0 + by, span.1 + by));
            assert(span_text(add, span) =~= span_text(p, (span.0 + by, span.1 + by)));
        }
    }
    assert(names(p) =~= names(base) + names(add));
}

/// A name by itself is a path with that name.
pub proof fn lemma_name_alone(name: Seq<u8>)
    requires
        is_name(name),
        forall|i: int| 0 <= i < name.len() ==> #[trigger] name[i] != SLASH,
    ensures
        names(name) == seq![name],
{
    lemma_part_end_at(name, 0, name.len() as int);
    assert(name.subrange(0, name.len() as int) == name);
    assert(spans_from(name, name.len() as int + 1) == Seq::<(int, int)>::empty());
    assert(spans(name) == seq![(0int, name.len() as int)]);
    assert(names(name) =~= seq![name]);
}

/// Each name of a path is one, and has no separator in it.
pub proof fn lemma_names_are_names(p: Seq<u8>)
    ensures
        forall|i: int|
            0 <= i < names(p).len() ==> is_name(#[trigger] names(p)[i]) && !names(p)[i].contains(
                SLASH,
            ),
{
    lemma_spans(p, 0);
    assert forall|i: int| 0 <= i < names(p).len() implies is_name(#[trigger] names(p)[i])
        && !names(p)[i].contains(SLASH) by {
        let span = spans(p)[i];
        lemma_span_has_no_slash(p, 0, i);
        assert(names(p)[i] == span_text(p, span));
        assert forall|j: int| 0 <= j < names(p)[i].len() implies names(p)[i][j] != SLASH by {
            assert(names(p)[i][j] == p[span.0 + j]);
        }
    }
}

/// What is joined onto a directory without starting at the root and without
/// going back lies below it.
pub proof fn law_inner_path_lies_below(base: Seq<u8>, add: Seq<u8>)
    requires
        base.len() > 0,
        anchor_of(add) != Anchor::Root,
        !names(add).contains(parent_name()),
    ensures
        lies_below(joined(base, add), base),
        names(joined(base, add)) == names(base) + names(add),
{
    lemma_joined_names(base, add);
    let p = joined(base, add);
    assert(names(base) =~= names(p).take(names(base).len() as int));
    assert forall|i: int| names(base).len() <= i < names(p).len() implies #[trigger] names(p)[i]
        != parent_name() by {
        assert(names(p)[i] == names(add)[i - names(base).len()]);
    }
}

/// What lies below something that lies below a directory lies below it too.
pub proof fn law_lies_below_is_transitive(p: Seq<u8>, middle: Seq<u8>, base: Seq<u8>)
    requires
        lies_below(p, middle),
        lies_below(middle, base),
    ensures
        lies_below(p, base),
{
    assert(names(middle) == names(p).take(names(middle).len() as int));
    assert(names(base) == names(middle).take(names(base).len() as int));
    assert(names(base) =~= names(p).take(names(base).len() as int));
    assert forall|i: int| names(base).len() <= i < names(p).len() implies #[trigger] names(p)[i]
        != parent_name() by {
        if i < names(middle).len() {
            assert(names(middle)[i] == names(p)[i]);
        }
    }
}

/// A name that does not go back leads somewhere inside any directory.
pub proof fn lemma_name_is_inner(name: Seq<u8>)
    requires
        is_name(name),
        name != parent_name(),
        forall|i: int| 0 <= i < name.len() ==> #[trigger] name[i] != SLASH,
    ensures
        is_inner(name),
{
    lemma_name_alone(name);
    assert(name[0] != SLASH);
}

/// The last name of a path leads somewhere inside any directory.
pub proof fn lemma_file_name_is_inner(p: Seq<u8>)
    requires
        file_name_of(p) is Some,
    ensures
        is_inner(file_name_of(p)->0),
{
    lemma_names_are_names(p);
    let name = names(p)[names(p).len() - 1];
    assert forall|i: int| 0 <= i < name.len() implies #[trigger] name[i] != SLASH by {
        assert(name.contains(name[i]));
    }
    lemma_name_is_inner(name);
}

/// The last name of a path is a path with that name.
pub proof fn lemma_file_name_alone(p: Seq<u8>)
    requires
        file_name_of(p) is Some,
    ensures
        names(file_name_of(p)->0) == seq![file_name_of(p)->0],
{
    lemma_names_are_names(p);
    let name = names(p)[names(p).len() - 1];
    assert forall|i: int| 0 <= i < name.len() implies #[trigger] name[i] != SLASH by {
        assert(name.contains(name[i]));
    }
    lemma_name_alone(name);
}

/// A way one name further: a name that goes back takes the last name off again.
/// There is nothing above the root.
pub open spec fn step(way: Seq<Seq<u8>>, rooted: bool, name: Seq<u8>) -> Seq<Seq<u8>> {
    if name != parent_name() {
        way.push(name)
    } else if way.len() > 0 && way.last() != parent_name() {
        way.drop_last()
    } else if rooted {
        way
    } else {
        way.push(name)
    }
}

/// Where the names lead from the end of `way`.
pub open spec fn resolved(
    way: Seq<Seq<u8>>,
    rooted: bool,
    list: Seq<Seq<u8>>,
) -> Seq<Seq<u8>>
    decreases list.len(),
{
    if list.len() == 0 {
        way
    } else {
        step(resolved(way, rooted, list.drop_last()), rooted, list.last())
    }
}

/// The place that `p` leads to: its names when those that go back are carried
/// out. Links are not followed.
pub open spec fn place_of(p: Seq<u8>) -> Seq<Seq<u8>> {
    resolved(seq![], anchor_of(p) == Anchor::Root, names(p))
}

/// The place of `p` is that of `base` or one below it.
pub open spec fn is_within(p: Seq<u8>, base: Seq<u8>) -> bool {
    &&& (anchor_of(p) == Anchor::Root) == (anchor_of(base) == Anchor::Root)
    &&& place_of(base).is_prefix_of(place_of(p))
    &&& forall|i: int|
        place_of(base).len() <= i < place_of(p).len() ==> #[trigger] place_of(p)[i]
            != parent_name()
}

/// The place that `p` leads to.
fn place(p: &[u8]) -> (way: Vec<Vec<u8>>)
    ensures
        path_texts(way@) == place_of(p@),
{
    let rooted: bool = is_rooted(p);
    let found = find_spans(p);
    let mut way: Vec<Vec<u8>> = Vec::new();
    let mut k: usize = 0;
    assert(path_texts(way@) =~= resolved(seq![], rooted, names(p@).take(0)));
    while k < found.len()
        invariant
            k <= found.len(),
            found@.len() == names(p@).len(),
            forall|i: int| 0 <= i < found@.len() ==> is_span_of(p@, #[trigger] found@[i], i),
            path_texts(way@) == resolved(seq![], rooted, names(p@).take(k as int)),
        decreases found.len() - k,
    {
        let span: (usize, usize) = found[k];
        assert(is_span_of(p@, span, k as int));
        let name = slice_subrange(p, span.0, span.1);
        assert(names(p@).take(k + 1).drop_last() == names(p@).take(k as int));
        assert(names(p@).take(k + 1).last() == name@);
        let ghost before = path_texts(way@);
        if is_parent_name(name) {
            let n: usize = way.len();
            if n > 0 && !is_parent_name(way[n - 1].as_slice()) {
                let _ = way.pop();
                assert(path_texts(way@) =~= before.drop_last());
            } else if !rooted {
                way.push(slice_to_vec(name));
                assert(path_texts(way@) =~= before.push(name@));
            }
        } else {
            way.push(slice_to_vec(name));
            assert(path_texts(way@) =~= before.push(name@));
        }
        k += 1;
    }
    assert(names(p@).take(k as int) == names(p@));
    way
}

/// Whether the place of `p` is that of `base` or one below it.
pub fn within(p: &[u8], base: &[u8]) -> (yes: bool)
    ensures
        yes == is_within(p@, base@),
{
    if is_rooted(p) != is_rooted(base) {
        return false;
    }
    let way = place(p);
    let lead = place(base);
    if lead.len() > way.len() {
        return false;
    }
    let mut k: usize = 0;
    while k < way.len()
        invariant
            k <= way.len(),
            lead.len() <= way.len(),
            path_texts(way@) == place_of(p@),
            path_texts(lead@) == place_of(base@),
            forall|i: int|
                0 <= i < k && i < lead@.len() ==> #[trigger] place_of(p@)[i] == place_of(base@)[i],
            forall|i: int|
                lead@.len() <= i < k ==> #[trigger] place_of(p@)[i] != parent_name(),
        decreases way.len() - k,
    {
        assert(place_of(p@)[k as int] == way@[k as int]@);
        if k < lead.len() {
            assert(place_of(base@)[k as int] == lead@[k as int]@);
            if !same_bytes(way[k].as_slice(), lead[k].as_slice()) {
                return false;
            }
        } else if is_parent_name(way[k].as_slice()) {
            return false;
        }
        k += 1;
    }
    assert(place_of(base@) =~= place_of(p@).take(lead@.len() as int));
    true
}

/// Names that follow others lead on from where those lead.
pub proof fn lemma_resolved_in_turn(
    way: Seq<Seq<u8>>,
    rooted: bool,
    a: Seq<Seq<u8>>,
    b: Seq<Seq<u8>>,
)
    ensures
        resolved(way, rooted, a + b) == resolved(resolved(way, rooted, a), rooted, b),
    decreases b.len(),
{
    if b.len() == 0 {
        assert(a + b =~= a);
    } else {
        assert((a + b).drop_last() =~= a + b.drop_last());
        assert((a + b).last() == b.last());
        lemma_resolved_in_turn(way, rooted, a, b.drop_last());
    }
}

/// Names that never go back lead straight on.
pub proof fn lemma_resolved_forward(way: Seq<Seq<u8>>, rooted: bool, list: Seq<Seq<u8>>)
    requires
        !list.contains(parent_name()),
    ensures
        resolved(way, rooted, list) == way + list,
    decreases list.len(),
{
    if list.len() == 0 {
        assert(way + list =~= way);
    } else {
        let shorter = list.drop_last();
        assert(!shorter.contains(parent_name())) by {
            if shorter.contains(parent_name()) {
                let k = shorter.index_of(parent_name());
                assert(list[k] == parent_name());
            }
        }
        lemma_resolved_forward(way, rooted, shorter);
        assert(list.last() != parent_name()) by {
            assert(list.contains(list.last()));
        }
        assert((way + shorter).push(list.last()) =~= way + list);
    }
}

/// The place of a path joined onto a directory is where the path leads from the
/// directory's place.
pub proof fn lemma_joined_place(base: Seq<u8>, add: Seq<u8>)
    requires
        base.len() > 0,
        add.len() == 0 || add[0] != SLASH,
    ensures
        place_of(joined(base, add)) == resolved(
            place_of(base),
            anchor_of(base) == Anchor::Root,
            names(add),
        ),
        anchor_of(joined(base, add)) == anchor_of(base),
        !names(add).contains(parent_name()) ==> place_of(joined(base, add)) == place_of(base)
            + names(add),
{
    let rooted = anchor_of(base) == Anchor::Root;
    lemma_joined_names(base, add);
    lemma_resolved_in_turn(seq![], rooted, names(base), names(add));
    if !names(add).contains(parent_name()) {
        lemma_resolved_forward(place_of(base), rooted, names(add));
    }
}

/// What is joined onto something within a directory, and does not start at the
/// root or go back, is within the directory too.
pub proof fn law_inner_path_stays_within(p: Seq<u8>, add: Seq<u8>, base: Seq<u8>)
    requires
        p.len() > 0,
        is_within(p, base),
        anchor_of(add) != Anchor::Root,
        !names(add).contains(parent_name()),
    ensures
        is_within(joined(p, add), base),
{
    lemma_joined_place(p, add);
    let n = place_of(base).len() as int;
    let place = place_of(joined(p, add));
    assert(place_of(base) =~= place.take(n)) by {
        assert(place_of(base) == place_of(p).take(n));
    }
    assert forall|i: int| n <= i < place.len() implies #[trigger] place[i] != parent_name() by {
        if i < place_of(p).len() {
            assert(place[i] == place_of(p)[i]);
        } else {
            assert(place[i] == names(add)[i - place_of(p).len()]);
            assert(names(add).contains(place[i]));
        }
    }
}

/// A name as part of the place of a file that would else lie outside a
/// directory: one of nothing but dots, two or more, gets another dot, so that
/// none goes back and different names stay different.
pub open spec fn kept_name(name: Seq<u8>) -> Seq<u8> {
    if name.len() >= 2 && forall|i: int| 0 <= i < name.len() ==> #[trigger] name[i] == DOT {
        name.push(DOT)
    } else {
        name
    }
}

/// A relative path with `mark` as its first name, and then the names of the
/// list as `kept_name` gives them.
pub open spec fn marked_path(mark: Seq<u8>, list: Seq<Seq<u8>>) -> Seq<u8>
    decreases list.len(),
{
    if list.len() == 0 {
        mark
    } else {
        joined(marked_path(mark, list.drop_last()), kept_name(list.last()))
    }
}

fn keep_name(name: &[u8]) -> (kept: Vec<u8>)
    ensures
        kept@ == kept_name(name@),
{
    let mut kept = slice_to_vec(name);
    let mut k: usize = 0;
    while k < name.len()
        invariant
            k <= name.len(),
            kept@ == name@,
            forall|i: int| 0 <= i < k ==> #[trigger] name@[i] == DOT,
        decreases name.len() - k,
    {
        if name[k] != DOT {
            return kept;
        }
        k += 1;
    }
    if name.len() >= 2 {
        kept.push(DOT);
    }
    kept
}

/// The names of `p` behind `mark`.
pub fn marked(mark: &[u8], p: &[u8]) -> (path: Vec<u8>)
    ensures
        path@ == marked_path(mark@, names(p@)),
{
    let found = find_spans(p);
    let mut path = slice_to_vec(mark);
    let mut k: usize = 0;
    assert(path@ =~= marked_path(mark@, names(p@).take(0)));
    while k < found.len()
        invariant
            k <= found.len(),
            found@.len() == names(p@).len(),
            forall|i: int| 0 <= i < found@.len() ==> is_span_of(p@, #[trigger] found@[i], i),
            path@ == marked_path(mark@, names(p@).take(k as int)),
        decreases found.len() - k,
    {
        let span: (usize, usize) = found[k];
        assert(is_span_of(p@, span, k as int));
        let name = slice_subrange(p, span.0, span.1);
        assert(names(p@).take(k + 1).drop_last() == names(p@).take(k as int));
        assert(names(p@).take(k + 1).last() == name@);
        let kept = keep_name(name);
        path = join(path.as_slice(), kept.as_slice());
        k += 1;
    }
    assert(names(p@).take(k as int) == names(p@));
    path
}

proof fn lemma_kept_name(name: Seq<u8>)
    requires
        is_name(name),
        !name.contains(SLASH),
    ensures
        is_name(kept_name(name)),
        kept_name(name) != parent_name(),
        forall|i: int| 0 <= i < kept_name(name).len() ==> #[trigger] kept_name(name)[i] != SLASH,
{
    assert forall|i: int| 0 <= i < kept_name(name).len() implies #[trigger] kept_name(name)[i]
        != SLASH by {
        if i < name.len() {
            assert(name.contains(name[i]));
        }
    }
    if kept_name(name) == parent_name() {
        if kept_name(name) == name {
            assert(name[0] == DOT && name[1] == DOT);
        }
    }
}

/// Different names stay different.
pub proof fn lemma_kept_name_is_injective(a: Seq<u8>, b: Seq<u8>)
    requires
        kept_name(a) == kept_name(b),
    ensures
        a == b,
{
    if kept_name(a) != a && kept_name(b) != b {
        assert(a =~= kept_name(a).drop_last());
        assert(b =~= kept_name(b).drop_last());
    } else if kept_name(a) != a {
        assert(b == a.push(DOT));
        assert forall|i: int| 0 <= i < b.len() implies #[trigger] b[i] == DOT by {
            if i < a.len() {
                assert(b[i] == a[i]);
            }
        }
        assert(kept_name(b) == b.push(DOT));
        assert(kept_name(b).len() == b.len() + 1);
    } else if kept_name(b) != b {
        assert(a == b.push(DOT));
        assert forall|i: int| 0 <= i < a.len() implies #[trigger] a[i] == DOT by {
            if i < b.len() {
                assert(a[i] == b[i]);
            }
        }
        assert(kept_name(a) == a.push(DOT));
        assert(kept_name(a).len() == a.len() + 1);
    }
}

/// The names of a marked path.
pub proof fn lemma_marked_path(mark: Seq<u8>, list: Seq<Seq<u8>>)
    requires
        is_name(mark),
        mark != parent_name(),
        !mark.contains(SLASH),
        forall|i: int|
            0 <= i < list.len() ==> is_name(#[trigger] list[i]) && !list[i].contains(SLASH),
    ensures
        marked_path(mark, list).len() > 0,
        marked_path(mark, list)[0] != SLASH,
        names(marked_path(mark, list)) == seq![mark] + list.map_values(
            |name: Seq<u8>| kept_name(name),
        ),
        !names(marked_path(mark, list)).contains(parent_name()),
    decreases list.len(),
{
    let keep = |name: Seq<u8>| kept_name(name);
    let all = names(marked_path(mark, list));
    if list.len() == 0 {
        assert forall|i: int| 0 <= i < mark.len() implies #[trigger] mark[i] != SLASH by {
            assert(mark.contains(mark[i]));
        }
        lemma_name_alone(mark);
        assert(seq![mark] + list.map_values(keep) =~= seq![mark]);
        assert(mark[0] != SLASH);
        assert(all[0] == mark);
    } else {
        let shorter = list.drop_last();
        let before = marked_path(mark, shorter);
        let name = list.last();
        assert(name == list[list.len() - 1]);
        assert forall|i: int| 0 <= i < shorter.len() implies is_name(#[trigger] shorter[i])
            && !shorter[i].contains(SLASH) by {
            assert(shorter[i] == list[i]);
        }
        lemma_marked_path(mark, shorter);
        lemma_kept_name(name);
        lemma_name_alone(kept_name(name));
        lemma_joined_names(before, kept_name(name));
        assert(joined(before, kept_name(name))[0] == before[0]);
        assert(all =~= seq![mark] + list.map_values(keep));
        if all.contains(parent_name()) {
            let k = all.index_of(parent_name());
            if k < names(before).len() {
                assert(names(before)[k] == all[k]);
                assert(names(before).contains(parent_name()));
            }
        }
    }
}

/// A separator parts the names before it from those behind it, and makes none
/// itself.
pub proof fn law_separator_parts_names(a: Seq<u8>, b: Seq<u8>)
    ensures
        names(a + seq![47u8] + b) == names(a) + names(b),
{
    let p = a + seq![SLASH] + b;
    let by = a.len() as int + 1;
    let n = spans(a).len() as int;
    lemma_spans_split(a, b, 0);
    lemma_spans(a, 0);
    lemma_spans(b, 0);
    assert forall|i: int| 0 <= i < names(p).len() implies #[trigger] names(p)[i] == (names(a)
        + names(b))[i] by {
        if i < n {
            let span = spans(a)[i];
            assert(spans(p)[i] == span);
            assert(span_text(a, span) =~= span_text(p, span));
        } else {
            let span = spans(b)[i - n];
            assert(spans(p)[i] == (span.0 + by, span.1 + by));
            assert(span_text(b, span) =~= span_text(p, (span.0 + by, span.1 + by)));
        }
    }
    assert(names(p) =~= names(a) + names(b));
}

/// A path without a separator has one name, itself, unless it is empty or a
/// single dot; then it has none.
pub proof fn law_part_is_a_name(part: Seq<u8>)
    requires
        forall|i: int| 0 <= i < part.len() ==> #[trigger] part[i] != 47,
    ensures
        part.len() == 0 || part == seq![46u8] ==> names(part) == Seq::<Seq<u8>>::empty(),
        part.len() > 0 && part != seq![46u8] ==> names(part) == seq![part],
{
    if part.len() > 0 && part != seq![46u8] {
        lemma_name_alone(part);
    } else {
        let n = part.len() as int;
        lemma_part_end_at(part, 0, n);
        assert(part.subrange(0, n) =~= part);
        assert(spans_from(part, n + 1) == Seq::<(int, int)>::empty());
        assert(spans(part) =~= Seq::<(int, int)>::empty());
        assert(names(part) =~= Seq::<Seq<u8>>::empty());
    }
}

/// A path starts at the root if its first byte is a separator, at the current
/// directory if its first part is a single dot, and at its first name otherwise.
pub proof fn law_first_bytes_tell_the_start(p: Seq<u8>)
    ensures
        anchor_of(p) == Anchor::Root <==> p.len() > 0 && p[0] == 47,
        anchor_of(p) == Anchor::Dot <==> p == seq![46u8] || (p.len() >= 2 && p[0] == 46 && p[1]
            == 47),
{
    if p.len() == 1 && p[0] == 46 {
        assert(p =~= seq![46u8]);
    }
}

/// The file name of a path is its last name; there is none where that would go
/// back to the directory above.
pub proof fn law_file_name_is_the_last_name(p: Seq<u8>, name: Seq<u8>)
    ensures
        file_name_of(p) == Some(name) <==> names(p).len() > 0 && names(p)[names(p).len() - 1]
            == name && name != seq![46u8, 46],
{
}

/// The extension of a file is what stands behind the last dot of its name, if
/// something stands before that dot.
pub proof fn law_extension_follows_the_last_dot(p: Seq<u8>, stem: Seq<u8>, ext: Seq<u8>)
    ensures
        file_name_of(p) == Some(stem + seq![46u8] + ext) && stem.len() > 0 && !ext.contains(46)
            ==> extension_of(p) == Some(ext),
        extension_of(p) == Some(ext) ==> (file_name_of(p) matches Some(name) && name.len()
            > ext.len() + 1 && name == name.take(name.len() - ext.len() - 1) + seq![46u8] + ext
            && !ext.contains(46)),
{
    let name = file_name_of(p)->0;
    if file_name_of(p) == Some(stem + seq![46u8] + ext) && stem.len() > 0 && !ext.contains(46) {
        let at = stem.len() as int;
        assert(name[at] == 46);
        assert forall|j: int| at < j < name.len() implies #[trigger] name[j] != DOT by {
            assert(name[j] == ext[j - at - 1]);
            assert(ext.contains(ext[j - at - 1]));
        }
        lemma_last_dot(name, at);
        assert(name.skip(at + 1) =~= ext);
    }
    if extension_of(p) == Some(ext) {
        lemma_last_dot_is_last(name);
        let at = last_dot(name);
        assert(ext == name.skip(at + 1));
        assert(name =~= name.take(at) + seq![46u8] + ext);
        if ext.contains(46) {
            let k = ext.index_of(46);
            assert(name[at + 1 + k] == 46);
        }
    }
}

proof fn lemma_last_dot_is_last(name: Seq<u8>)
    ensures
        -1 <= last_dot(name) < name.len(),
        last_dot(name) >= 0 ==> name[last_dot(name)] == 46,
        forall|j: int| last_dot(name) < j < name.len() ==> #[trigger] name[j] != 46,
    decreases name.len(),
{
    if name.len() > 0 && name.last() != DOT {
        lemma_last_dot_is_last(name.drop_last());
        assert forall|j: int| last_dot(name) < j < name.len() implies #[trigger] name[j] != 46 by {
            if j < name.len() - 1 {
                assert(name.drop_last()[j] == name[j]);
            }
        }
    }
}

/// Joining keeps both texts whole, with one separator between them: the one that
/// the first ends in, or a new one. What starts at the root, or has nothing
/// before it, stays as it is.
pub proof fn law_joined_texts_stay_whole(base: Seq<u8>, add: Seq<u8>)
    ensures
        add.len() > 0 && add[0] == 47 ==> joined(base, add) == add,
        joined(Seq::<u8>::empty(), add) == add,
        base.len() > 0 && (add.len() == 0 || add[0] != 47) ==> {
            let whole = joined(base, add);
            let front = whole.take(whole.len() - add.len());
            &&& whole.len() >= add.len()
            &&& whole == front + add
            &&& front.len() > 0 && front[front.len() - 1] == 47
            &&& front == base || (front == base + seq![47u8] && base[base.len() - 1] != 47)
        },
{
    assert(Seq::<u8>::empty() + add =~= add);
    if base.len() > 0 && (add.len() == 0 || add[0] != 47) {
        let whole = joined(base, add);
        let front = whole.take(whole.len() - add.len());
        assert(whole =~= front + add);
        if base.last() == SLASH {
            assert(front =~= base);
        } else {
            assert(front =~= base + seq![47u8]);
        }
    }
}

proof fn lemma_spans_from_span(p: Seq<u8>, start: int, k: int)
    requires
        0 <= start,
        0 <= k < spans_from(p, start).len(),
    ensures
        spans_from(p, spans_from(p, start)[k].0) == spans_from(p, start).skip(k),
        spans_from(p, start)[k].1 < p.len() ==> p[spans_from(p, start)[k].1] == SLASH,
    decreases p.len() + 1 - start,
{
    lemma_part_end(p, start);
    let end = part_end(p, start);
    let rest = spans_from(p, end + 1);
    let all = spans_from(p, start);
    if is_name(p.subrange(start, end)) {
        assert(all == seq![(start, end)] + rest);
        if k == 0 {
            assert(all.skip(0) =~= all);
        } else {
            assert(all[k] == rest[k - 1]);
            lemma_spans_from_span(p, end + 1, k - 1);
            assert(all.skip(k) =~= rest.skip(k - 1));
        }
    } else {
        assert(all =~= rest);
        lemma_spans_from_span(p, end + 1, k);
    }
}

/// From the start of name number `k` to the end of the last name there are the
/// same names, so much further to the front.
proof fn lemma_spans_between(p: Seq<u8>, k: int)
    requires
        0 <= k < spans(p).len(),
    ensures
        ({
            let all = spans(p);
            let rest = p.subrange(all[k].0, all[all.len() - 1].1);
            &&& spans(rest).len() == all.len() - k
            &&& forall|i: int|
                0 <= i < all.len() - k ==> #[trigger] spans(rest)[i] == (
                    all[k + i].0 - all[k].0,
                    all[k + i].1 - all[k].0,
                )
        }),
{
    let all = spans(p);
    let n = all.len() as int;
    let from = all[k].0;
    let to = all[n - 1].1;
    lemma_spans(p, 0);
    lemma_spans_from_span(p, 0, k);
    lemma_spans_from_span(p, 0, n - 1);
    assert(all[k].1 <= to);
    let front = p.take(from);
    let rest = p.subrange(from, to);
    let tail = p.skip(to);
    assert(p =~= front + (rest + tail));
    lemma_spans_behind(front, rest + tail, 0);
    let behind = spans(rest + tail);
    assert(all.skip(k) == shifted(behind, from));
    assert(behind.len() == n - k);
    assert forall|i: int| 0 <= i < n - k implies #[trigger] behind[i] == (
        all[k + i].0 - from,
        all[k + i].1 - from,
    ) by {
        assert(all.skip(k)[i] == all[k + i]);
        assert(shifted(behind, from)[i] == (behind[i].0 + from, behind[i].1 + from));
    }
    if to < p.len() {
        let t = p.skip(to + 1);
        assert(tail =~= seq![SLASH] + t);
        assert(rest + tail =~= rest + seq![SLASH] + t);
        lemma_spans_split(rest, t, 0);
        lemma_spans(t, 0);
        if spans(t).len() > 0 {
            let last = spans(t)[spans(t).len() - 1];
            assert(behind[n - k - 1] == (last.0 + rest.len() + 1, last.1 + rest.len() + 1));
        }
        assert(spans(rest) =~= behind);
    } else {
        assert(rest + tail =~= rest);
    }
}

proof fn lemma_names_from(p: Seq<u8>, k: int)
    requires
        0 <= k <= names(p).len(),
    ensures
        names(names_from(p, k)) == names(p).skip(k),
        names_from(p, k).len() == 0 || names_from(p, k)[0] != 47,
{
    if k == names(p).len() {
        law_part_is_a_name(Seq::<u8>::empty());
        assert(names(p).skip(k) =~= Seq::<Seq<u8>>::empty());
    } else {
        let all = spans(p);
        let n = all.len() as int;
        let from = all[k].0;
        let to = all[n - 1].1;
        let rest = p.subrange(from, to);
        lemma_spans(p, 0);
        lemma_spans_between(p, k);
        assert forall|i: int| 0 <= i < n - k implies #[trigger] names(rest)[i] == names(p)[k
            + i] by {
            let span = all[k + i];
            assert(spans(rest)[i] == (span.0 - from, span.1 - from));
            assert(span.1 <= to) by {
                if k + i < n - 1 {
                    assert(all[k + i].1 < all[n - 1].0);
                }
            }
            assert(from <= span.0) by {
                if i > 0 {
                    assert(all[k].1 < all[k + i].0);
                }
            }
            assert(span_text(rest, (span.0 - from, span.1 - from)) =~= span_text(p, span));
        }
        assert(names(rest) =~= names(p).skip(k));
        lemma_span_has_no_slash(p, 0, k);
        assert(from < to) by {
            if k < n - 1 {
                assert(all[k].1 < all[n - 1].0);
            }
        }
        assert(rest[0] == p[from]);
    }
}

/// What is left of a path behind another is there exactly if both start alike and
/// the names of the other are the first of the path; it has the other names of
/// the path, and does not start at the root.
pub proof fn law_stripping_leaves_the_other_names(p: Seq<u8>, base: Seq<u8>)
    ensures
        relative_to(p, base) is Some <==> anchor_of(p) == anchor_of(base) && names(base).len()
            <= names(p).len() && names(base) == names(p).take(names(base).len() as int),
        relative_to(p, base) matches Some(rest) ==> names(rest) == names(p).skip(
            names(base).len() as int,
        ) && (rest.len() == 0 || rest[0] != 47),
{
    if relative_to(p, base) is Some {
        lemma_names_from(p, names(base).len() as int);
        assert(names(base) =~= names(p).take(names(base).len() as int));
    }
}

/// A path leads inside any directory exactly if it does not start at the root,
/// names something, and none of its names goes back.
pub proof fn law_inner_path_never_goes_back(p: Seq<u8>)
    ensures
        is_inner(p) <==> (p.len() == 0 || p[0] != 47) && names(p).len() > 0 && (forall|i: int|
            0 <= i < names(p).len() ==> #[trigger] names(p)[i] != seq![46u8, 46]),
{
    if !names(p).contains(parent_name()) {
        assert forall|i: int| 0 <= i < names(p).len() implies #[trigger] names(p)[i] != seq![
            46u8,
            46,
        ] by {
            assert(names(p).contains(names(p)[i]));
        }
    }
}

/// A path that goes on behind another with one more name leads one name further,
/// or back by one if that name is two dots. Above the root there is nothing, and
/// above the start of a path that does not start there, two dots stay.
pub proof fn law_place_follows_the_names(p: Seq<u8>, longer: Seq<u8>, name: Seq<u8>)
    requires
        names(longer) == names(p).push(name),
        (anchor_of(longer) == Anchor::Root) == (anchor_of(p) == Anchor::Root),
    ensures
        names(p).len() == 0 ==> place_of(p) == Seq::<Seq<u8>>::empty(),
        name != seq![46u8, 46] ==> place_of(longer) == place_of(p).push(name),
        name == seq![46u8, 46] && place_of(p).len() > 0 && place_of(p).last() != name
            ==> place_of(longer) == place_of(p).drop_last(),
        name == seq![46u8, 46] && (place_of(p).len() == 0 || place_of(p).last() == name)
            ==> place_of(longer) == if anchor_of(p) == Anchor::Root {
            place_of(p)
        } else {
            place_of(p).push(name)
        },
{
    assert(names(longer).drop_last() =~= names(p));
    assert(names(longer).last() == name);
}

/// A path leads into a directory exactly if its place is that of the directory
/// with any number of names behind it, none of which goes back.
pub proof fn law_within_means_further_names(p: Seq<u8>, base: Seq<u8>, rest: Seq<Seq<u8>>)
    ensures
        (anchor_of(p) == Anchor::Root) == (anchor_of(base) == Anchor::Root) && place_of(p)
            == place_of(base) + rest && !rest.contains(seq![46u8, 46]) ==> is_within(p, base),
        is_within(p, base) ==> (anchor_of(p) == Anchor::Root) == (anchor_of(base)
            == Anchor::Root) && place_of(p) == place_of(base) + place_of(p).skip(
            place_of(base).len() as int,
        ) && !place_of(p).skip(place_of(base).len() as int).contains(seq![46u8, 46]),
{
    let n = place_of(base).len() as int;
    if place_of(p) == place_of(base) + rest && !rest.contains(seq![46u8, 46]) {
        assert(place_of(base) =~= place_of(p).take(n));
        assert forall|i: int| n <= i < place_of(p).len() implies #[trigger] place_of(p)[i]
            != parent_name() by {
            assert(place_of(p)[i] == rest[i - n]);
            assert(rest.contains(rest[i - n]));
        }
    }
    if is_within(p, base) {
        assert(place_of(base) == place_of(p).take(n));
        assert(place_of(p) =~= place_of(base) + place_of(p).skip(n));
        if place_of(p).skip(n).contains(seq![46u8, 46]) {
            let k = place_of(p).skip(n).index_of(seq![46u8, 46]);
            assert(place_of(p)[n + k] == seq![46u8, 46]);
        }
    }
}

/// A name is kept as it is, unless it is two or more dots and nothing else; then
/// it gets one dot more.
pub proof fn law_names_are_kept_but_for_dots(name: Seq<u8>, n: nat)
    ensures
        n >= 2 ==> kept_name(Seq::new(n, |i: int| 46u8)) == Seq::new(n + 1, |i: int| 46u8),
        name.len() < 2 || (exists|i: int| 0 <= i < name.len() && #[trigger] name[i] != 46)
            ==> kept_name(name) == name,
{
    let dots = Seq::new(n, |i: int| 46u8);
    if n >= 2 {
        assert(kept_name(dots) =~= Seq::new(n + 1, |i: int| 46u8));
    }
}

/// A list of paths is taken one by one, as their bytes.
pub proof fn law_path_texts_keep_the_list(list: Seq<Vec<u8>>, i: int)
    ensures
        path_texts(list).len() == list.len(),
        0 <= i < list.len() ==> path_texts(list)[i] == list[i]@,
{
}

} // verus!
