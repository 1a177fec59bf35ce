//! Which backups of a file are the oldest, and their removal.
//!
//! A directory listing is given as its entries in the order of the listing, each
//! with the time at which it was last modified, in nanoseconds from the Unix
//! epoch. An entry is known by its position in the listing. The backups are the
//! directories among the entries.

use vstd::prelude::*;

use crate::latest;
use crate::text;

verus! {

/// What an attempt to list a directory gave.
#[derive(PartialEq, Eq, Debug)]
pub enum Listing<E, T> {
    /// There is nothing at the path.
    Missing,
    /// What is there could not be listed.
    Failed { error: T },
    Entries(E),
}

/// An entry of a directory with backups.
#[derive(PartialEq, Eq, Structural, Clone, Copy, Debug)]
pub struct BackupEntry {
    pub is_dir: bool,
    /// When it was last modified; of an entry that is not a directory this is
    /// never looked at.
    pub time: i128,
}

/// Entry `i` is older than entry `j`: by its time, and between equal times by
/// the order of the listing.
pub open spec fn older(entries: Seq<BackupEntry>, i: int, j: int) -> bool {
    entries[i].time < entries[j].time || (entries[i].time == entries[j].time && i < j)
}

/// The positions of the backups.
pub open spec fn backups_of(entries: Seq<BackupEntry>) -> Set<int> {
    Set::new(|i: int| 0 <= i < entries.len() && entries[i].is_dir)
}

/// Each position in `order` is that of a backup, which is older than those of
/// the positions behind it.
pub open spec fn oldest_first(entries: Seq<BackupEntry>, order: Seq<usize>) -> bool {
    &&& forall|a: int|
        0 <= a < order.len() ==> backups_of(entries).contains(#[trigger] order[a] as int)
    &&& forall|a: int, b: int|
        0 <= a < b < order.len() ==> older(
            entries,
            #[trigger] order[a] as int,
            #[trigger] order[b] as int,
        )
}

/// How many of `n` backups are over the limit.
pub open spec fn excess_of(n: nat, max_backups: nat) -> nat {
    if n > max_backups {
        (n - max_backups) as nat
    } else {
        0
    }
}

/// `gone` are the backups over the limit: as many as that, the oldest first,
/// and each older than any backup that is not among them.
pub open spec fn is_rotation(
    entries: Seq<BackupEntry>,
    max_backups: nat,
    gone: Seq<usize>,
) -> bool {
    &&& gone.len() == excess_of(backups_of(entries).len(), max_backups)
    &&& oldest_first(entries, gone)
    &&& forall|a: int, j: usize|
        0 <= a < gone.len() && backups_of(entries).contains(j as int) && !gone.contains(j)
            ==> #[trigger] older(entries, gone[a] as int, j as int)
}

/// Time `i` comes before time `j`; between equal times their order decides.
spec fn before(times: Seq<i128>, i: int, j: int) -> bool {
    times[i] < times[j] || (times[i] == times[j] && i < j)
}

/// Each position in `order` is one of `times`, and comes before those behind it.
spec fn ascending(times: Seq<i128>, order: Seq<usize>) -> bool {
    &&& forall|a: int| 0 <= a < order.len() ==> #[trigger] order[a] < times.len()
    &&& forall|a: int, b: int|
        0 <= a < b < order.len() ==> before(
            times,
            #[trigger] order[a] as int,
            #[trigger] order[b] as int,
        )
}

/// The positions in `order` are those from `lo` to `hi`.
spec fn covers(order: Seq<usize>, lo: int, hi: int) -> bool {
    &&& forall|a: int| 0 <= a < order.len() ==> lo <= #[trigger] order[a] < hi
    &&& forall|j: usize| lo <= j < hi ==> #[trigger] order.contains(j)
}

/// The positions of `left` and `right` together, the oldest entry first.
fn merge(
    times: &[i128],
    left: &Vec<usize>,
    right: &Vec<usize>,
    Ghost(lo): Ghost<int>,
    Ghost(mid): Ghost<int>,
    Ghost(hi): Ghost<int>,
) -> (order: Vec<usize>)
    requires
        0 <= lo <= mid <= hi <= times@.len(),
        ascending(times@, left@),
        ascending(times@, right@),
        covers(left@, lo, mid),
        covers(right@, mid, hi),
        left@.len() + right@.len() == hi - lo,
    ensures
        ascending(times@, order@),
        covers(order@, lo, hi),
        order@.len() == hi - lo,
{
    let mut order: Vec<usize> = Vec::new();
    let mut i: usize = 0;
    let mut j: usize = 0;
    while i < left.len() || j < right.len()
        invariant
            0 <= lo <= mid <= hi <= times@.len(),
            ascending(times@, left@),
            ascending(times@, right@),
            covers(left@, lo, mid),
            covers(right@, mid, hi),
            i <= left.len(),
            j <= right.len(),
            order@.len() == i + j,
            ascending(times@, order@),
            forall|a: int| 0 <= a < order@.len() ==> lo <= #[trigger] order@[a] < hi,
            forall|a: int| 0 <= a < i ==> order@.contains(#[trigger] left@[a]),
            forall|a: int| 0 <= a < j ==> order@.contains(#[trigger] right@[a]),
            forall|a: int, b: int|
                0 <= a < order@.len() && i <= b < left@.len() ==> before(
                    times@,
                    #[trigger] order@[a] as int,
                    #[trigger] left@[b] as int,
                ),
            forall|a: int, b: int|
                0 <= a < order@.len() && j <= b < right@.len() ==> before(
                    times@,
                    #[trigger] order@[a] as int,
                    #[trigger] right@[b] as int,
                ),
        decreases left.len() - i + right.len() - j,
    {
        let from_left: bool = if i == left.len() {
            false
        } else if j == right.len() {
            true
        } else {
            times[left[i]] <= times[right[j]]
        };
        let ghost before = order@;
        if from_left {
            assert(left@[i as int] < mid);
            order.push(left[i]);
            assert(order@.last() == left@[i as int]);
            i += 1;
        } else {
            order.push(right[j]);
            assert(order@.last() == right@[j as int]);
            j += 1;
        }
        proof {
            assert(forall|a: int| 0 <= a < before.len() ==> #[trigger] order@[a] == before[a]);
            assert forall|a: int| 0 <= a < i implies order@.contains(#[trigger] left@[a]) by {
                if before.contains(left@[a]) {
                    let k = before.index_of(left@[a]);
                    assert(order@[k] == left@[a]);
                }
            }
            assert forall|a: int| 0 <= a < j implies order@.contains(#[trigger] right@[a]) by {
                if before.contains(right@[a]) {
                    let k = before.index_of(right@[a]);
                    assert(order@[k] == right@[a]);
                }
            }
        }
    }
    proof {
        assert forall|k: usize| lo <= k < hi implies #[trigger] order@.contains(k) by {
            if k < mid {
                assert(left@.contains(k));
                assert(order@.contains(left@[left@.index_of(k)]));
            } else {
                assert(right@.contains(k));
                assert(order@.contains(right@[right@.index_of(k)]));
            }
        }
    }
    order
}

/// The positions from `lo` to `hi`, the oldest entry first.
fn age_order(times: &[i128], lo: usize, hi: usize) -> (order: Vec<usize>)
    requires
        lo <= hi <= times@.len(),
    ensures
        ascending(times@, order@),
        covers(order@, lo as int, hi as int),
        order@.len() == hi - lo,
    decreases hi - lo,
{
    if hi - lo == 0 {
        Vec::new()
    } else if hi - lo == 1 {
        let mut order: Vec<usize> = Vec::new();
        order.push(lo);
        assert(order@[0] == lo);
        order
    } else {
        let mid: usize = lo + (hi - lo) / 2;
        let left = age_order(times, lo, mid);
        let right = age_order(times, mid, hi);
        merge(times, &left, &right, Ghost(lo as int), Ghost(mid as int), Ghost(hi as int))
    }
}

/// `picked` are the positions of the backups, in the order of the listing.
spec fn picks(entries: Seq<BackupEntry>, picked: Seq<usize>) -> bool {
    &&& forall|a: int|
        0 <= a < picked.len() ==> backups_of(entries).contains(#[trigger] picked[a] as int)
    &&& forall|a: int, b: int|
        0 <= a < b < picked.len() ==> #[trigger] picked[a] < #[trigger] picked[b]
    &&& forall|j: usize|
        backups_of(entries).contains(j as int) ==> #[trigger] picked.contains(j)
}

proof fn lemma_backups_of_next(entries: Seq<BackupEntry>, i: int)
    requires
        0 <= i < entries.len(),
        backups_of(entries.take(i)).finite(),
    ensures
        backups_of(entries.take(i + 1)).finite(),
        backups_of(entries.take(i + 1)).len() == backups_of(entries.take(i)).len()
            + if entries[i].is_dir {
            1nat
        } else {
            0
        },
{
    let so_far = backups_of(entries.take(i));
    assert(forall|j: int| 0 <= j < i ==> entries.take(i)[j] == entries.take(i + 1)[j]);
    if entries[i].is_dir {
        assert(backups_of(entries.take(i + 1)) =~= so_far.insert(i));
    } else {
        assert(backups_of(entries.take(i + 1)) =~= so_far);
    }
}

/// The positions of the backups, in the order of the listing.
fn backup_positions(entries: &[BackupEntry]) -> (picked: Vec<usize>)
    ensures
        picks(entries@, picked@),
        picked@.len() == backups_of(entries@).len(),
{
    let mut picked: Vec<usize> = Vec::new();
    let mut i: usize = 0;
    proof {
        assert(backups_of(entries@.take(0)) =~= Set::<int>::empty());
    }
    while i < entries.len()
        invariant
            i <= entries.len(),
            backups_of(entries@.take(i as int)).finite(),
            picked@.len() == backups_of(entries@.take(i as int)).len(),
            forall|a: int|
                0 <= a < picked@.len() ==> #[trigger] picked@[a] < i
                    && entries@[picked@[a] as int].is_dir,
            forall|a: int, b: int|
                0 <= a < b < picked@.len() ==> #[trigger] picked@[a] < #[trigger] picked@[b],
            forall|j: usize| j < i && entries@[j as int].is_dir ==> #[trigger] picked@.contains(j),
        decreases entries.len() - i,
    {
        proof {
            lemma_backups_of_next(entries@, i as int);
        }
        let ghost so_far = picked@;
        if entries[i].is_dir {
            picked.push(i);
            assert(picked@.last() == i);
            assert forall|j: usize|
                j <= i && entries@[j as int].is_dir implies #[trigger] picked@.contains(j) by {
                if j < i {
                    assert(so_far.contains(j));
                    assert(picked@[so_far.index_of(j)] == j);
                }
            }
        }
        i += 1;
    }
    assert(entries@.take(entries@.len() as int) == entries@);
    picked
}

/// Whether any of the entries has to go, where it is told of each whether it is
/// a directory.
pub fn rotation_needed(kinds: &[bool], max_backups: usize) -> (yes: bool)
    ensures
        yes == (Set::<int>::new(|i: int| 0 <= i < kinds@.len() && kinds@[i]).len() > max_backups),
        forall|entries: Seq<BackupEntry>, gone: Seq<usize>|
            entries.len() == kinds@.len() && (forall|i: int|
                0 <= i < kinds@.len() ==> (#[trigger] entries[i]).is_dir == kinds@[i])
                && #[trigger] is_rotation(entries, max_backups as nat, gone) ==> yes == (gone.len()
                > 0),
{
    let mut count: usize = 0;
    let mut i: usize = 0;
    let ghost so_far = Set::<int>::empty();
    while i < kinds.len()
        invariant
            i <= kinds.len(),
            count <= i,
            so_far.finite(),
            so_far.len() == count,
            forall|j: int| so_far.contains(j) <==> 0 <= j < i && kinds@[j],
        decreases kinds.len() - i,
    {
        if kinds[i] {
            proof {
                so_far = so_far.insert(i as int);
            }
            count += 1;
        }
        i += 1;
    }
    let ghost dirs = Set::<int>::new(|i: int| 0 <= i < kinds@.len() && kinds@[i]);
    proof {
        assert(so_far =~= dirs);
        assert forall|entries: Seq<BackupEntry>, gone: Seq<usize>|
            entries.len() == kinds@.len() && (forall|i: int|
                0 <= i < kinds@.len() ==> (#[trigger] entries[i]).is_dir == kinds@[i])
                && #[trigger] is_rotation(entries, max_backups as nat, gone) implies (count
            > max_backups) == (gone.len() > 0) by {
            assert(backups_of(entries) =~= dirs);
        }
    }
    count > max_backups
}

/// The backups over the limit, the oldest first.
fn oldest_backups(entries: &[BackupEntry], max_backups: usize) -> (gone: Vec<usize>)
    ensures
        is_rotation(entries@, max_backups as nat, gone@),
{
    let picked = backup_positions(entries);
    let mut times: Vec<i128> = Vec::new();
    let mut i: usize = 0;
    while i < picked.len()
        invariant
            i <= picked.len(),
            picks(entries@, picked@),
            times@.len() == i,
            forall|a: int| 0 <= a < i ==> #[trigger] times@[a] == entries@[picked@[a] as int].time,
        decreases picked.len() - i,
    {
        assert(backups_of(entries@).contains(picked@[i as int] as int));
        times.push(entries[picked[i]].time);
        i += 1;
    }
    let total: usize = times.len();
    let order = age_order(times.as_slice(), 0, total);
    let over: usize = if picked.len() > max_backups {
        picked.len() - max_backups
    } else {
        0
    };
    let mut gone: Vec<usize> = Vec::new();
    let mut k: usize = 0;
    while k < over
        invariant
            k <= over <= order@.len(),
            order@.len() == picked@.len(),
            forall|a: int| 0 <= a < order@.len() ==> #[trigger] order@[a] < picked@.len(),
            gone@.len() == k,
            forall|a: int| 0 <= a < k ==> #[trigger] gone@[a] == picked@[order@[a] as int],
        decreases over - k,
    {
        assert(order@[k as int] < picked@.len());
        gone.push(picked[order[k]]);
        k += 1;
    }
    proof {
        lemma_order_maps(entries@, picked@, times@, order@, gone@);
    }
    gone
}

proof fn lemma_order_maps(
    entries: Seq<BackupEntry>,
    picked: Seq<usize>,
    times: Seq<i128>,
    order: Seq<usize>,
    gone: Seq<usize>,
)
    requires
        picks(entries, picked),
        times.len() == picked.len(),
        times.len() <= usize::MAX,
        forall|a: int|
            0 <= a < times.len() ==> #[trigger] times[a] == entries[picked[a] as int].time,
        ascending(times, order),
        covers(order, 0, times.len() as int),
        gone.len() <= order.len(),
        forall|a: int| 0 <= a < gone.len() ==> #[trigger] gone[a] == picked[order[a] as int],
    ensures
        oldest_first(entries, gone),
        forall|a: int, j: usize|
            0 <= a < gone.len() && backups_of(entries).contains(j as int) && !gone.contains(j)
                ==> #[trigger] older(entries, gone[a] as int, j as int),
{
    assert forall|x: int, y: int|
        0 <= x < times.len() && 0 <= y < times.len() && #[trigger] before(
            times,
            x,
            y,
        ) implies older(entries, picked[x] as int, picked[y] as int) by {
        assert(times[x] == entries[picked[x] as int].time);
        assert(times[y] == entries[picked[y] as int].time);
    }
    assert forall|a: int| 0 <= a < gone.len() implies backups_of(entries).contains(
        #[trigger] gone[a] as int,
    ) by {
        assert(backups_of(entries).contains(picked[order[a] as int] as int));
    }
    assert forall|a: int, b: int| 0 <= a < b < gone.len() implies older(
        entries,
        #[trigger] gone[a] as int,
        #[trigger] gone[b] as int,
    ) by {
        assert(before(times, order[a] as int, order[b] as int));
    }
    assert forall|a: int, j: usize|
        0 <= a < gone.len() && backups_of(entries).contains(j as int) && !gone.contains(
            j,
        ) implies #[trigger] older(entries, gone[a] as int, j as int) by {
        assert(picked.contains(j));
        let x = picked.index_of(j);
        assert(order.contains(x as usize));
        let b = order.index_of(x as usize);
        assert(order[b] == x);
        if b < gone.len() {
            assert(gone[b] == j);
        }
        assert(gone[a] == picked[order[a] as int]);
        assert(before(times, order[a] as int, order[b] as int));
    }
}

/// What a rotation asks for.
#[derive(PartialEq, Eq, Debug)]
pub enum RotationRequest<T> {
    /// Remove the backup at the position.
    Remove { position: usize },
    /// Nothing more: all that had to go are gone.
    Done,
    /// Nothing more: the directory could not be listed, or a backup could not be
    /// removed.
    Failed { error: T },
}

/// A rotation under way.
#[derive(PartialEq, Eq, Debug)]
pub struct RotationJob {
    /// The backups that have to go, in that order.
    pub gone: Vec<usize>,
    /// How many of them were removed.
    pub removed: usize,
    /// Why the directory could not be listed, or the backup after these could not
    /// be removed, where one of these was so.
    pub failure: Option<String>,
}

/// A rotation under way, as the contracts speak of it.
#[verifier::ext_equal]
pub struct Rotation {
    pub gone: Seq<usize>,
    pub removed: nat,
    pub failure: Option<Seq<char>>,
}

impl View for RotationRequest<String> {
    type V = RotationRequest<Seq<char>>;

    open spec fn view(&self) -> RotationRequest<Seq<char>> {
        match *self {
            RotationRequest::Remove { position } => RotationRequest::Remove { position },
            RotationRequest::Done => RotationRequest::Done,
            RotationRequest::Failed { error } => RotationRequest::Failed { error: error@ },
        }
    }
}

impl View for RotationJob {
    type V = Rotation;

    open spec fn view(&self) -> Rotation {
        Rotation {
            gone: self.gone@,
            removed: self.removed as nat,
            failure: text::text_of(self.failure),
        }
    }
}

/// The rotation at its start.
pub open spec fn started(gone: Seq<usize>) -> Rotation {
    Rotation { gone, removed: 0, failure: None }
}

/// What the rotation asks for.
pub open spec fn request_of(rotation: Rotation) -> RotationRequest<Seq<char>> {
    match rotation.failure {
        Some(error) => RotationRequest::Failed { error },
        None => if rotation.removed < rotation.gone.len() {
            RotationRequest::Remove { position: rotation.gone[rotation.removed as int] }
        } else {
            RotationRequest::Done
        },
    }
}

/// The rotation after the removal that it asked for, unless that failed.
pub open spec fn next(rotation: Rotation, failure: Option<Seq<char>>) -> Rotation {
    match failure {
        None => Rotation { removed: rotation.removed + 1, ..rotation },
        Some(_) => Rotation { failure, ..rotation },
    }
}

/// The rotation after so many attempts, and the positions that it asked to
/// remove on the way; none if it asked for no removal.
pub open spec fn run(
    rotation: Rotation,
    outcomes: Seq<Option<Seq<char>>>,
) -> Option<(Rotation, Seq<usize>)>
    decreases outcomes.len(),
{
    if outcomes.len() == 0 {
        Some((rotation, seq![]))
    } else {
        match request_of(rotation) {
            RotationRequest::Remove { position } => match run(
                next(rotation, outcomes.first()),
                outcomes.drop_first(),
            ) {
                Some((end, asked)) => Some((end, seq![position] + asked)),
                None => None,
            },
            _ => None,
        }
    }
}

/// Starts to remove backups so that at most `max_backups` stay. A directory that
/// is missing has none, and the error of one that cannot be listed is reported.
pub fn rotate_backups(
    listing: Listing<Vec<BackupEntry>, String>,
    max_backups: usize,
) -> (job: RotationJob)
    ensures
        match listing {
            Listing::Missing => job@ == started(seq![]) && request_of(job@) == RotationRequest::<
                Seq<char>,
            >::Done,
            Listing::Failed { error } => job@.gone == Seq::<usize>::empty() && request_of(job@) == (
            RotationRequest::<Seq<char>>::Failed { error: error@ }),
            Listing::Entries(entries) => is_rotation(entries@, max_backups as nat, job@.gone)
                && job@ == started(job@.gone),
        },
{
    match listing {
        Listing::Missing => RotationJob { gone: Vec::new(), removed: 0, failure: None },
        Listing::Failed { error } => RotationJob {
            gone: Vec::new(),
            removed: 0,
            failure: Some(error),
        },
        Listing::Entries(entries) => RotationJob {
            gone: oldest_backups(entries.as_slice(), max_backups),
            removed: 0,
            failure: None,
        },
    }
}

impl RotationJob {
    /// What has to be done next.
    pub fn request(&self) -> (request: RotationRequest<String>)
        ensures
            request@ == request_of(self@),
    {
        match &self.failure {
            Some(error) => RotationRequest::Failed { error: error.clone() },
            None => if self.removed < self.gone.len() {
                RotationRequest::Remove { position: self.gone[self.removed] }
            } else {
                RotationRequest::Done
            },
        }
    }

    /// The rotation after the removal that it asked for, unless that failed.
    pub fn advance(self, failure: Option<String>) -> (after: RotationJob)
        requires
            request_of(self@) is Remove,
        ensures
            after@ == next(self@, text::text_of(failure)),
    {
        assert(self.removed < self.gone.len());
        match failure {
            None => RotationJob { removed: self.removed + 1, ..self },
            Some(error) => RotationJob { failure: Some(error), ..self },
        }
    }
}

/// Outcomes in which so many removals are done and then, where there is an
/// error, one fails.
pub open spec fn done_then(n: nat, failure: Option<Seq<char>>) -> Seq<Option<Seq<char>>> {
    let done = Seq::new(n, |k: int| None::<Seq<char>>);
    match failure {
        Some(_) => done.push(failure),
        None => done,
    }
}

proof fn lemma_run(rotation: Rotation, n: nat, failure: Option<Seq<char>>)
    requires
        rotation.failure is None,
        rotation.removed + n <= rotation.gone.len(),
        failure is Some ==> rotation.removed + n < rotation.gone.len(),
    ensures
        run(rotation, done_then(n, failure)) == Some(
            (
                (Rotation { removed: rotation.removed + n, failure, ..rotation }),
                rotation.gone.subrange(
                    rotation.removed as int,
                    rotation.removed as int + done_then(n, failure).len(),
                ),
            ),
        ),
    decreases n,
{
    let from = rotation.removed as int;
    let outcomes = done_then(n, failure);
    if n == 0 {
        if failure is Some {
            let ended = next(rotation, failure);
            assert(outcomes.first() == failure);
            assert(outcomes.drop_first() =~= Seq::<Option<Seq<char>>>::empty());
            assert(run(ended, outcomes.drop_first()) == Some((ended, Seq::<usize>::empty())));
            assert(seq![rotation.gone[from]] + Seq::<usize>::empty()
                =~= rotation.gone.subrange(from, from + 1));
        } else {
            assert(rotation.gone.subrange(from, from) =~= Seq::<usize>::empty());
        }
    } else {
        let step = next(rotation, None);
        lemma_run(step, (n - 1) as nat, failure);
        assert(outcomes.first() is None);
        assert(outcomes.drop_first() =~= done_then((n - 1) as nat, failure));
        assert(seq![rotation.gone[from]] + rotation.gone.subrange(
            from + 1,
            from + outcomes.len(),
        ) =~= rotation.gone.subrange(from, from + outcomes.len()));
    }
}

/// A rotation of a directory with no more backups than the limit allows asks for
/// nothing.
pub proof fn law_nothing_goes_within_limit(
    entries: Seq<BackupEntry>,
    max_backups: nat,
    gone: Seq<usize>,
)
    requires
        is_rotation(entries, max_backups, gone),
        backups_of(entries).len() <= max_backups,
    ensures
        gone == Seq::<usize>::empty(),
        request_of(started(gone)) == RotationRequest::<Seq<char>>::Done,
{
}

/// A rotation in which nothing fails asks to remove all that have to go, each
/// once and in that order, and then ends.
pub proof fn law_rotation_removes_all(gone: Seq<usize>)
    ensures
        run(started(gone), done_then(gone.len(), None)) matches Some((end, asked)) && asked == gone
            && end.removed == gone.len() && request_of(end) == RotationRequest::<Seq<char>>::Done,
{
    lemma_run(started(gone), gone.len(), None);
    assert(gone.subrange(0, gone.len() as int) =~= gone);
}

/// A rotation stops at the first backup that cannot be removed, with the error.
/// Those before it are gone, and nothing behind it is asked for: what is gone are
/// the oldest backups, and what stays is what a rotation to as many as stay would
/// leave.
pub proof fn law_rotation_stops_at_failure(
    entries: Seq<BackupEntry>,
    max_backups: nat,
    gone: Seq<usize>,
    i: int,
    error: Seq<char>,
)
    requires
        is_rotation(entries, max_backups, gone),
        0 <= i < gone.len(),
    ensures
        run(started(gone), done_then(i as nat, Some(error))) matches Some((end, asked)) && asked
            == gone.take(i + 1) && end.removed == i && request_of(end) == (RotationRequest::<
            Seq<char>,
        >::Failed { error }),
        is_rotation(entries, (backups_of(entries).len() - i) as nat, gone.take(i)),
{
    lemma_run(started(gone), i as nat, Some(error));
    assert(gone.subrange(0, i + 1) =~= gone.take(i + 1));
    let first = gone.take(i);
    assert forall|a: int, j: usize|
        0 <= a < first.len() && backups_of(entries).contains(j as int) && !first.contains(
            j,
        ) implies #[trigger] older(entries, first[a] as int, j as int) by {
        if gone.contains(j) {
            let b = gone.index_of(j);
            if b < i {
                assert(first[b] == j);
            }
            assert(older(entries, gone[a] as int, gone[b] as int));
        } else {
            assert(older(entries, gone[a] as int, j as int));
        }
    }
}

/// The backups to remove are fixed by the listing and the limit.
pub proof fn law_rotation_is_unique(
    entries: Seq<BackupEntry>,
    max_backups: nat,
    gone: Seq<usize>,
    other: Seq<usize>,
)
    requires
        is_rotation(entries, max_backups, gone),
        is_rotation(entries, max_backups, other),
    ensures
        gone == other,
{
    lemma_rotations_agree(entries, max_backups, gone, other, gone.len() as int);
    assert(gone.take(gone.len() as int) == gone);
    assert(other.take(gone.len() as int) == other);
}

proof fn lemma_rotations_agree(
    entries: Seq<BackupEntry>,
    max_backups: nat,
    gone: Seq<usize>,
    other: Seq<usize>,
    n: int,
)
    requires
        is_rotation(entries, max_backups, gone),
        is_rotation(entries, max_backups, other),
        0 <= n <= gone.len(),
    ensures
        gone.take(n) == other.take(n),
    decreases n,
{
    if n > 0 {
        lemma_rotations_agree(entries, max_backups, gone, other, n - 1);
        let a = n - 1;
        assert(forall|k: int| 0 <= k < a ==> gone[k] == gone.take(a)[k]);
        assert(forall|k: int| 0 <= k < a ==> other[k] == other.take(a)[k]);
        if gone[a] != other[a] {
            lemma_goes_first(entries, max_backups, gone, other, a);
            lemma_goes_first(entries, max_backups, other, gone, a);
        }
        assert(gone.take(n) == gone.take(a).push(gone[a]));
        assert(other.take(n) == other.take(a).push(other[a]));
    }
}

proof fn lemma_goes_first(
    entries: Seq<BackupEntry>,
    max_backups: nat,
    gone: Seq<usize>,
    other: Seq<usize>,
    a: int,
)
    requires
        is_rotation(entries, max_backups, gone),
        is_rotation(entries, max_backups, other),
        0 <= a < gone.len(),
        forall|k: int| 0 <= k < a ==> #[trigger] gone[k] == other[k],
        gone[a] != other[a],
    ensures
        older(entries, other[a] as int, gone[a] as int),
{
    let x = gone[a];
    if other.contains(x) {
        let k = other.index_of(x);
        if k < a {
            assert(gone[k] == x);
            assert(older(entries, gone[k] as int, gone[a] as int));
        }
        assert(other[k] == x);
    }
}

proof fn lemma_backups_of_is_finite(entries: Seq<BackupEntry>)
    ensures
        backups_of(entries).finite(),
{
    vstd::set_lib::lemma_int_range(0, entries.len() as int);
    vstd::set_lib::lemma_len_subset(
        backups_of(entries),
        vstd::set_lib::set_int_range(0, entries.len() as int),
    );
}

/// The backups that are not among those of `gone`.
pub open spec fn kept(entries: Seq<BackupEntry>, gone: Seq<usize>) -> Set<int> {
    backups_of(entries).filter(|i: int| !gone.contains(i as usize))
}

/// After the rotation as many backups are left as there were, or as the limit
/// allows, and every one that is left is newer than every one that went.
pub proof fn law_rotation_keeps_newest(
    entries: Seq<BackupEntry>,
    max_backups: nat,
    gone: Seq<usize>,
)
    requires
        is_rotation(entries, max_backups, gone),
        entries.len() <= usize::MAX,
    ensures
        forall|i: int, j: int|
            gone.contains(i as usize) && 0 <= i < entries.len() && kept(entries, gone).contains(j)
                ==> #[trigger] older(entries, i, j),
        kept(entries, gone).finite(),
        kept(entries, gone).len() == if backups_of(entries).len() < max_backups {
            backups_of(entries).len()
        } else {
            max_backups
        },
{
    assert forall|i: int, j: int|
        gone.contains(i as usize) && 0 <= i < entries.len() && kept(entries, gone).contains(
            j,
        ) implies #[trigger] older(entries, i, j) by {
        let a = gone.index_of(i as usize);
        assert(older(entries, gone[a] as int, (j as usize) as int));
    }
    let all = backups_of(entries);
    let left = kept(entries, gone);
    let ints = gone.map_values(|i: usize| i as int);
    let went = ints.to_set();
    lemma_backups_of_is_finite(entries);
    assert(ints.no_duplicates()) by {
        assert forall|a: int, b: int| 0 <= a < b < ints.len() implies ints[a] != ints[b] by {
            assert(older(entries, gone[a] as int, gone[b] as int));
        }
    }
    ints.unique_seq_to_set();
    assert forall|i: int| all.contains(i) implies gone.contains(i as usize) == went.contains(i) by {
        if gone.contains(i as usize) {
            let a = gone.index_of(i as usize);
            assert(ints[a] == i);
        }
        if went.contains(i) {
            let a = ints.index_of(i);
            assert(gone[a] == i as usize);
        }
    }
    assert forall|i: int| went.contains(i) implies all.contains(i) by {
        let a = ints.index_of(i);
        assert(all.contains(gone[a] as int));
    }
    assert(all =~= left.union(went));
    assert(left.disjoint(went));
    vstd::set_lib::lemma_len_subset(left, all);
    vstd::set_lib::lemma_set_disjoint_lens(left, went);
}

/// The backups that are newer than entry `i`.
spec fn newer_than(entries: Seq<BackupEntry>, i: int) -> Set<int> {
    backups_of(entries).filter(|j: int| older(entries, i, j))
}

/// A backup goes exactly if as many as the limit allows are newer.
proof fn lemma_goes_if_enough_are_newer(
    entries: Seq<BackupEntry>,
    max_backups: nat,
    gone: Seq<usize>,
    i: int,
)
    requires
        is_rotation(entries, max_backups, gone),
        entries.len() <= usize::MAX,
        backups_of(entries).contains(i),
    ensures
        newer_than(entries, i).finite(),
        gone.contains(i as usize) == (newer_than(entries, i).len() >= max_backups),
{
    let newer = newer_than(entries, i);
    let left = kept(entries, gone);
    law_rotation_keeps_newest(entries, max_backups, gone);
    lemma_backups_of_is_finite(entries);
    vstd::set_lib::lemma_len_subset(newer, backups_of(entries));
    if gone.contains(i as usize) {
        assert forall|j: int| left.contains(j) implies newer.contains(j) by {
            assert(older(entries, i, j));
        }
        vstd::set_lib::lemma_len_subset(left, newer);
    } else {
        assert forall|j: int| newer.contains(j) implies left.remove(i).contains(j) by {
            if gone.contains(j as usize) {
                assert(older(entries, j, i));
            }
        }
        assert(left.contains(i));
        vstd::set_lib::lemma_len_subset(newer, left.remove(i));
    }
}

/// `back` lists the entries that are left when those of `gone` are removed.
pub open spec fn lists_rest(
    entries: Seq<BackupEntry>,
    gone: Seq<usize>,
    back: Seq<int>,
) -> bool {
    &&& back.no_duplicates()
    &&& forall|i: int| #[trigger]
        back.contains(i) <==> 0 <= i < entries.len() && !gone.contains(i as usize)
}

/// The entries at the positions of `back`, as the listing after a rotation shows
/// them.
pub open spec fn entries_at(entries: Seq<BackupEntry>, back: Seq<int>) -> Seq<BackupEntry> {
    Seq::new(back.len(), |k: int| entries[back[k]])
}

/// Backups with the same time are listed in the order that they had.
pub open spec fn keeps_ties(entries: Seq<BackupEntry>, back: Seq<int>) -> bool {
    forall|k: int, l: int|
        0 <= k < l < back.len() && entries[#[trigger] back[k]].is_dir
            && entries[#[trigger] back[l]].is_dir && entries[back[k]].time == entries[back[l]].time
            ==> back[k] < back[l]
}

/// Rotating to `a` and then to `b` leaves what rotating to the smaller of the
/// two leaves, if no two backups have the same time or the second listing shows
/// such backups in the order of the first.
pub proof fn law_rotations_compose(
    entries: Seq<BackupEntry>,
    a: nat,
    b: nat,
    gone: Seq<usize>,
    back: Seq<int>,
    gone_then: Seq<usize>,
    gone_at_once: Seq<usize>,
    i: int,
)
    requires
        entries.len() <= usize::MAX,
        is_rotation(entries, a, gone),
        lists_rest(entries, gone, back),
        keeps_ties(entries, back),
        is_rotation(entries_at(entries, back), b, gone_then),
        is_rotation(
            entries,
            if a < b {
                a
            } else {
                b
            },
            gone_at_once,
        ),
        0 <= i < entries.len(),
    ensures
        gone_at_once.contains(i as usize) <==> gone.contains(i as usize) || exists|k: usize|
            #[trigger] gone_then.contains(k) && back[k as int] == i,
{
    let rest = entries_at(entries, back);
    let least = if a < b {
        a
    } else {
        b
    };
    lemma_rest_is_no_longer(entries, gone, back);
    assert forall|k: usize| #[trigger] gone_then.contains(k) implies k < back.len()
        && backups_of(entries).contains(back[k as int]) && back.contains(back[k as int]) by {
        let at = gone_then.index_of(k);
        assert(backups_of(rest).contains(gone_then[at] as int));
        assert(back.contains(back[k as int]));
    }
    if !backups_of(entries).contains(i) {
        lemma_only_backups_go(entries, gone, i);
        lemma_only_backups_go(entries, gone_at_once, i);
    } else {
        lemma_goes_if_enough_are_newer(entries, a, gone, i);
        lemma_goes_if_enough_are_newer(entries, least, gone_at_once, i);
        if !gone.contains(i as usize) {
            assert(back.contains(i));
            let k = back.index_of(i);
            assert(backups_of(rest).contains(k));
            lemma_goes_if_enough_are_newer(rest, b, gone_then, k);
            lemma_as_many_are_newer(entries, a, gone, back, k);
            if gone_then.contains(k as usize) {
                assert(back[(k as usize) as int] == i);
            }
            if exists|l: usize| #[trigger] gone_then.contains(l) && back[l as int] == i {
                let l = choose|l: usize| #[trigger] gone_then.contains(l) && back[l as int] == i;
                assert(l == k);
            }
        }
    }
}

proof fn lemma_only_backups_go(entries: Seq<BackupEntry>, gone: Seq<usize>, i: int)
    requires
        oldest_first(entries, gone),
        entries.len() <= usize::MAX,
        0 <= i < entries.len(),
        !backups_of(entries).contains(i),
    ensures
        !gone.contains(i as usize),
{
    if gone.contains(i as usize) {
        let at = gone.index_of(i as usize);
        assert(backups_of(entries).contains(gone[at] as int));
    }
}

proof fn lemma_rest_is_no_longer(entries: Seq<BackupEntry>, gone: Seq<usize>, back: Seq<int>)
    requires
        lists_rest(entries, gone, back),
    ensures
        back.len() <= entries.len(),
{
    let all = vstd::set_lib::set_int_range(0, entries.len() as int);
    vstd::set_lib::lemma_int_range(0, entries.len() as int);
    back.unique_seq_to_set();
    assert forall|i: int| back.to_set().contains(i) implies all.contains(i) by {
        assert(back.contains(i));
    }
    vstd::set_lib::lemma_len_subset(back.to_set(), all);
}

/// As many backups are newer than a given one in what is left as were before.
proof fn lemma_as_many_are_newer(
    entries: Seq<BackupEntry>,
    a: nat,
    gone: Seq<usize>,
    back: Seq<int>,
    k: int,
)
    requires
        entries.len() <= usize::MAX,
        is_rotation(entries, a, gone),
        lists_rest(entries, gone, back),
        keeps_ties(entries, back),
        backups_of(entries_at(entries, back)).contains(k),
    ensures
        newer_than(entries_at(entries, back), k).len() == newer_than(entries, back[k]).len(),
{
    let rest = entries_at(entries, back);
    let i = back[k];
    let fewer = newer_than(rest, k);
    let newer = newer_than(entries, i);
    let f = |l: int| back[l];
    law_rotation_keeps_newest(entries, a, gone);
    lemma_backups_of_is_finite(rest);
    vstd::set_lib::lemma_len_subset(fewer, backups_of(rest));
    assert(back.contains(i));
    assert(vstd::relations::injective_on(f, fewer));
    assert forall|j: int| fewer.map(f).contains(j) implies newer.contains(j) by {
        let l = choose|l: int| fewer.contains(l) && f(l) == j;
        assert(back.contains(back[l]));
        assert(entries[back[l]] == rest[l]);
        if rest[k].time == rest[l].time {
            assert(back[k] < back[l]);
        }
    }
    assert forall|j: int| newer.contains(j) implies fewer.map(f).contains(j) by {
        if gone.contains(j as usize) {
            assert(kept(entries, gone).contains(i));
            assert(older(entries, j, i));
        }
        assert(back.contains(j));
        let l = back.index_of(j);
        assert(f(l) == j);
        if rest[k].time == rest[l].time && l < k {
            assert(back[l] < back[k]);
        }
        assert(l != k);
        assert(fewer.contains(l));
    }
    assert(fewer.map(f) =~= newer);
    vstd::set_lib::lemma_map_size(fewer, newer, f);
}

/// A second rotation to the same limit removes nothing.
pub proof fn law_rotating_again_changes_nothing(
    entries: Seq<BackupEntry>,
    max_backups: nat,
    gone: Seq<usize>,
    back: Seq<int>,
    gone_then: Seq<usize>,
)
    requires
        entries.len() <= usize::MAX,
        is_rotation(entries, max_backups, gone),
        lists_rest(entries, gone, back),
        is_rotation(entries_at(entries, back), max_backups, gone_then),
    ensures
        gone_then.len() == 0,
{
    let rest = entries_at(entries, back);
    let left = kept(entries, gone);
    let f = |l: int| back[l];
    law_rotation_keeps_newest(entries, max_backups, gone);
    lemma_backups_of_is_finite(rest);
    assert(vstd::relations::injective_on(f, backups_of(rest)));
    vstd::set_lib::lemma_map_size(backups_of(rest), backups_of(rest).map(f), f);
    assert forall|j: int| backups_of(rest).map(f).contains(j) implies left.contains(j) by {
        let l = choose|l: int| backups_of(rest).contains(l) && f(l) == j;
        assert(back.contains(back[l]));
    }
    vstd::set_lib::lemma_len_subset(backups_of(rest).map(f), left);
}

/// A rotation that leaves any backup at all leaves the newest entry, by which a
/// file that has not changed is recognised.
pub proof fn law_latest_survives_rotation(
    entries: Seq<BackupEntry>,
    max_backups: nat,
    gone: Seq<usize>,
    latest: int,
)
    requires
        max_backups > 0,
        entries.len() <= usize::MAX,
        is_rotation(entries, max_backups, gone),
        latest::is_latest(entries.map_values(|e: BackupEntry| Some(e.time)), latest),
    ensures
        !gone.contains(latest as usize),
{
    let listed = entries.map_values(|e: BackupEntry| Some(e.time));
    law_rotation_keeps_newest(entries, max_backups, gone);
    let left = kept(entries, gone);
    if gone.contains(latest as usize) {
        let a = gone.index_of(latest as usize);
        assert(backups_of(entries).contains(gone[a] as int));
        if left =~= Set::<int>::empty() {
            assert(gone.len() == 0);
        }
        let j = left.choose();
        assert(older(entries, latest, j));
        assert(latest::earlier(listed, j, latest));
    }
}

/// A rotation removes as many directories as there are over the limit, and
/// nothing that is no directory. No directory that stays was modified before one
/// that goes and, of those modified at the same time, the ones that go come first
/// in the listing. They go in the order of their times.
pub proof fn law_rotation_goes_by_time(
    entries: Seq<BackupEntry>,
    max_backups: nat,
    gone: Seq<usize>,
)
    requires
        is_rotation(entries, max_backups, gone),
    ensures
        ({
            let dirs = Set::<int>::new(|i: int| 0 <= i < entries.len() && entries[i].is_dir);
            gone.len() == if dirs.len() > max_backups {
                dirs.len() - max_backups
            } else {
                0
            }
        }),
        forall|a: int|
            0 <= a < gone.len() ==> #[trigger] gone[a] < entries.len()
                && entries[gone[a] as int].is_dir,
        forall|a: int, j: usize|
            0 <= a < gone.len() && j < entries.len() && #[trigger] entries[j as int].is_dir
                && !gone.contains(j) ==> (entries[#[trigger] gone[a] as int].time
                < entries[j as int].time || (entries[gone[a] as int].time == entries[j as int].time
                && gone[a] < j)),
        forall|a: int, b: int|
            0 <= a < b < gone.len() ==> (entries[#[trigger] gone[a] as int].time
                < entries[#[trigger] gone[b] as int].time || (entries[gone[a] as int].time
                == entries[gone[b] as int].time && gone[a] < gone[b])),
{
    let dirs = Set::<int>::new(|i: int| 0 <= i < entries.len() && entries[i].is_dir);
    assert(backups_of(entries) =~= dirs);
    assert forall|a: int| 0 <= a < gone.len() implies #[trigger] gone[a] < entries.len()
        && entries[gone[a] as int].is_dir by {
        assert(backups_of(entries).contains(gone[a] as int));
    }
    assert forall|a: int, j: usize|
        0 <= a < gone.len() && j < entries.len() && #[trigger] entries[j as int].is_dir
            && !gone.contains(j) implies (entries[#[trigger] gone[a] as int].time
        < entries[j as int].time || (entries[gone[a] as int].time == entries[j as int].time
        && gone[a] < j)) by {
        assert(backups_of(entries).contains(j as int));
        assert(older(entries, gone[a] as int, j as int));
    }
    assert forall|a: int, b: int|
        0 <= a < b < gone.len() implies (entries[#[trigger] gone[a] as int].time
        < entries[#[trigger] gone[b] as int].time || (entries[gone[a] as int].time
        == entries[gone[b] as int].time && gone[a] < gone[b])) by {
        assert(older(entries, gone[a] as int, gone[b] as int));
    }
}

/// What is asked for is the first of the backups that have to go and are not yet
/// removed, until one could not be removed or none is left; and an attempt
/// changes nothing but how far the removal has come.
pub proof fn law_removal_goes_on_in_order(
    gone: Seq<usize>,
    removed: nat,
    error: Seq<char>,
)
    ensures
        ({
            let now = Rotation { gone, removed, failure: None };
            &&& removed < gone.len() ==> request_of(now) == (RotationRequest::<
                Seq<char>,
            >::Remove { position: gone[removed as int] })
            &&& removed >= gone.len() ==> request_of(now) == RotationRequest::<Seq<char>>::Done
            &&& next(now, None) == (Rotation { gone, removed: removed + 1, failure: None })
            &&& next(now, Some(error)) == (Rotation { gone, removed, failure: Some(error) })
            &&& request_of(next(now, Some(error))) == (RotationRequest::<
                Seq<char>,
            >::Failed { error })
        }),
        started(gone) == (Rotation { gone, removed: 0, failure: None }),
{
}

/// The contracts see everything that these values hold, as it is: nothing is left
/// out, and nothing is changed but that bytes and texts are taken as sequences.
pub proof fn law_views_show_everything(
    rotation_request: RotationRequest<String>,
    rotation_job: RotationJob,
)
    ensures
        rotation_request@ == (match rotation_request {
            RotationRequest::Remove { position } => RotationRequest::Remove { position },
            RotationRequest::Done => RotationRequest::Done,
            RotationRequest::Failed { error } => RotationRequest::Failed { error: error@ },
        }),
        rotation_job@ == (Rotation {
            gone: rotation_job.gone@,
            removed: rotation_job.removed as nat,
            failure: text::text_of(rotation_job.failure),
        }),
{
}

} // verus!
