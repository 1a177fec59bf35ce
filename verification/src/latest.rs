//! Which backup of a file is the newest, and the hash that is kept with it.

use vstd::prelude::*;
use vstd::slice::slice_to_vec;

use crate::archive;
use crate::backups::Listing;
use crate::paths;
use crate::text;

verus! {

/// Entry `i` comes before entry `j` when entries without a time come first,
/// then those with one by their times, and otherwise in the order of the
/// listing.
pub open spec fn earlier(times: Seq<Option<i128>>, i: int, j: int) -> bool {
    match (times[i], times[j]) {
        (None, Some(_)) => true,
        (Some(_), None) => false,
        (None, None) => i < j,
        (Some(a), Some(b)) => a < b || (a == b && i < j),
    }
}

/// Entry `i` is the newest: every other entry comes before it.
pub open spec fn is_latest(times: Seq<Option<i128>>, i: int) -> bool {
    &&& 0 <= i < times.len()
    &&& forall|j: int| 0 <= j < times.len() && j != i ==> #[trigger] earlier(times, j, i)
}

/// The newest entry of a listing, if it has any.
pub fn latest_entry(times: &[Option<i128>]) -> (latest: Option<usize>)
    ensures
        latest.is_none() == (times@.len() == 0),
        latest matches Some(i) ==> is_latest(times@, i as int),
{
    if times.len() == 0 {
        return None;
    }
    let mut best: usize = 0;
    let mut i: usize = 1;
    while i < times.len()
        invariant
            1 <= i <= times.len(),
            best < i,
            forall|j: int| 0 <= j < i && j != best ==> #[trigger] earlier(times@, j, best as int),
        decreases times.len() - i,
    {
        let newer: bool = match (times[best], times[i]) {
            (None, _) => true,
            (Some(_), None) => false,
            (Some(a), Some(b)) => a <= b,
        };
        if newer {
            proof {
                assert forall|j: int| 0 <= j < i implies #[trigger] earlier(
                    times@,
                    j,
                    i as int,
                ) by {
                    assert(j != best ==> earlier(times@, j, best as int));
                }
            }
            best = i;
        } else {
            assert(earlier(times@, i as int, best as int));
        }
        i += 1;
    }
    Some(best)
}

/// There is one newest entry, and an entry with a later time than all others
/// is it.
pub proof fn law_latest_is_unique(times: Seq<Option<i128>>, i: int, j: int)
    requires
        is_latest(times, i),
        0 <= j < times.len(),
        is_latest(times, j) || (times[j] matches Some(t) && forall|k: int|
            0 <= k < times.len() && k != j ==> (#[trigger] times[k] matches Some(s) ==> s < t)),
    ensures
        i == j,
{
    if i != j {
        assert(earlier(times, j, i));
        assert(is_latest(times, j) ==> earlier(times, i, j));
    }
}

/// An entry of a directory with backups, of whatever kind, and when it was last
/// modified, where the system tells.
#[derive(PartialEq, Eq, Debug)]
pub struct DatedEntry<P> {
    pub name: P,
    pub time: Option<i128>,
}

/// What finding the newest hash waits for.
#[derive(PartialEq, Eq, Debug)]
pub enum LatestStage<P, T> {
    /// To hear what is in `dir`.
    List { dir: P },
    /// To hear what is in the file `path`.
    Read { path: P },
    /// Nothing: this is the hash, if there is one.
    Ended { hash: Option<T> },
}

/// What happened.
#[derive(PartialEq, Eq, Debug)]
pub enum LatestEvent<E, T> {
    Listed(Listing<E, T>),
    /// The whole content of the file, if it could be read and is text.
    Content(Option<T>),
}

/// What has to be done next.
#[derive(PartialEq, Eq, Debug)]
pub enum LatestRequest<P, T> {
    List { dir: P },
    Read { path: P },
    /// Nothing more: this is the hash, if there is one.
    Found { hash: Option<T> },
}

/// A search for the hash of the newest backup.
#[derive(PartialEq, Eq, Debug)]
pub struct LatestJob {
    pub stage: LatestStage<Vec<u8>, String>,
}

impl View for DatedEntry<Vec<u8>> {
    type V = DatedEntry<Seq<u8>>;

    open spec fn view(&self) -> DatedEntry<Seq<u8>> {
        DatedEntry { name: self.name@, time: self.time }
    }
}

impl View for LatestStage<Vec<u8>, String> {
    type V = LatestStage<Seq<u8>, Seq<char>>;

    open spec fn view(&self) -> LatestStage<Seq<u8>, Seq<char>> {
        match *self {
            LatestStage::List { dir } => LatestStage::List { dir: dir@ },
            LatestStage::Read { path } => LatestStage::Read { path: path@ },
            LatestStage::Ended { hash } => LatestStage::Ended { hash: text::text_of(hash) },
        }
    }
}

/// The entries of a directory, as the contracts speak of them.
pub open spec fn dated(entries: Seq<DatedEntry<Vec<u8>>>) -> Seq<DatedEntry<Seq<u8>>> {
    entries.map_values(|e: DatedEntry<Vec<u8>>| e@)
}

impl View for LatestEvent<Vec<DatedEntry<Vec<u8>>>, String> {
    type V = LatestEvent<Seq<DatedEntry<Seq<u8>>>, Seq<char>>;

    open spec fn view(&self) -> LatestEvent<Seq<DatedEntry<Seq<u8>>>, Seq<char>> {
        match *self {
            LatestEvent::Listed(listing) => LatestEvent::Listed(
                match listing {
                    Listing::Missing => Listing::Missing,
                    Listing::Failed { error } => Listing::Failed { error: error@ },
                    Listing::Entries(entries) => Listing::Entries(dated(entries@)),
                },
            ),
            LatestEvent::Content(content) => LatestEvent::Content(text::text_of(content)),
        }
    }
}

impl View for LatestRequest<Vec<u8>, String> {
    type V = LatestRequest<Seq<u8>, Seq<char>>;

    open spec fn view(&self) -> LatestRequest<Seq<u8>, Seq<char>> {
        match *self {
            LatestRequest::List { dir } => LatestRequest::List { dir: dir@ },
            LatestRequest::Read { path } => LatestRequest::Read { path: path@ },
            LatestRequest::Found { hash } => LatestRequest::Found { hash: text::text_of(hash) },
        }
    }
}

/// The times of the entries.
pub open spec fn times_of(entries: Seq<DatedEntry<Seq<u8>>>) -> Seq<Option<i128>> {
    entries.map_values(|e: DatedEntry<Seq<u8>>| e.time)
}

/// The position of the newest entry.
pub open spec fn latest_of(entries: Seq<DatedEntry<Seq<u8>>>) -> int {
    choose|i: int| is_latest(times_of(entries), i)
}

/// The event answers what the stage waits for.
pub open spec fn fits(
    stage: LatestStage<Seq<u8>, Seq<char>>,
    event: LatestEvent<Seq<DatedEntry<Seq<u8>>>, Seq<char>>,
) -> bool {
    match stage {
        LatestStage::List { .. } => event is Listed,
        LatestStage::Read { .. } => event is Content,
        LatestStage::Ended { .. } => false,
    }
}

/// The stage that follows.
pub open spec fn next(
    stage: LatestStage<Seq<u8>, Seq<char>>,
    event: LatestEvent<Seq<DatedEntry<Seq<u8>>>, Seq<char>>,
) -> LatestStage<Seq<u8>, Seq<char>> {
    match (stage, event) {
        (LatestStage::List { dir }, LatestEvent::Listed(listing)) => match listing {
            Listing::Missing | Listing::Failed { .. } => LatestStage::Ended { hash: None },
            Listing::Entries(entries) => if entries.len() == 0 {
                LatestStage::Ended { hash: None }
            } else {
                LatestStage::Read {
                    path: archive::hash_file_in(
                        paths::joined(dir, entries[latest_of(entries)].name),
                    ),
                }
            },
        },
        (LatestStage::Read { .. }, LatestEvent::Content(content)) => LatestStage::Ended {
            hash: content,
        },
        _ => stage,
    }
}

/// What a stage asks for.
pub open spec fn request_of(
    stage: LatestStage<Seq<u8>, Seq<char>>,
) -> LatestRequest<Seq<u8>, Seq<char>> {
    match stage {
        LatestStage::List { dir } => LatestRequest::List { dir },
        LatestStage::Read { path } => LatestRequest::Read { path },
        LatestStage::Ended { hash } => LatestRequest::Found { hash },
    }
}

/// Starts to find the hash kept with the newest backup in `archive_path`.
pub fn get_latest_hash(archive_path: &[u8]) -> (job: LatestJob)
    ensures
        job.stage@ == (LatestStage::<Seq<u8>, Seq<char>>::List { dir: archive_path@ }),
{
    LatestJob { stage: LatestStage::List { dir: slice_to_vec(archive_path) } }
}

/// The name of the newest entry, if there is any.
fn latest_name(entries: &Vec<DatedEntry<Vec<u8>>>) -> (name: Option<Vec<u8>>)
    ensures
        name is None <==> entries@.len() == 0,
        name matches Some(n) ==> n@ == dated(entries@)[latest_of(dated(entries@))].name,
{
    let mut times: Vec<Option<i128>> = Vec::new();
    let mut i: usize = 0;
    while i < entries.len()
        invariant
            i <= entries.len(),
            times@ =~= times_of(dated(entries@)).take(i as int),
        decreases entries.len() - i,
    {
        assert(times_of(dated(entries@))[i as int] == entries@[i as int].time);
        times.push(entries[i].time);
        i += 1;
    }
    assert(times@ =~= times_of(dated(entries@)));
    match latest_entry(times.as_slice()) {
        Some(k) => {
            proof {
                law_latest_is_unique(times@, k as int, latest_of(dated(entries@)));
            }
            Some(slice_to_vec(entries[k].name.as_slice()))
        },
        None => None,
    }
}

impl LatestJob {
    /// What has to be done next.
    pub fn request(&self) -> (request: LatestRequest<Vec<u8>, String>)
        ensures
            request@ == request_of(self.stage@),
    {
        match &self.stage {
            LatestStage::List { dir } => LatestRequest::List { dir: slice_to_vec(dir.as_slice()) },
            LatestStage::Read { path } => LatestRequest::Read {
                path: slice_to_vec(path.as_slice()),
            },
            LatestStage::Ended { hash } => LatestRequest::Found {
                hash: match hash {
                    Some(hash) => Some(hash.clone()),
                    None => None,
                },
            },
        }
    }

    /// The search after an event that answers its request.
    pub fn advance(self, event: LatestEvent<Vec<DatedEntry<Vec<u8>>>, String>) -> (after: LatestJob)
        requires
            fits(self.stage@, event@),
        ensures
            after.stage@ == next(self.stage@, event@),
    {
        let stage = match (self.stage, event) {
            (LatestStage::List { dir }, LatestEvent::Listed(listing)) => match listing {
                Listing::Missing => LatestStage::Ended { hash: None },
                Listing::Failed { error: _ } => LatestStage::Ended { hash: None },
                Listing::Entries(entries) => match latest_name(&entries) {
                    Some(name) => {
                        let backup = paths::join(dir.as_slice(), name.as_slice());
                        LatestStage::Read { path: archive::hash_file(backup.as_slice()) }
                    },
                    None => LatestStage::Ended { hash: None },
                },
            },
            (LatestStage::Read { path: _ }, LatestEvent::Content(content)) => LatestStage::Ended {
                hash: content,
            },
            (stage, _) => stage,
        };
        LatestJob { stage }
    }
}

proof fn lemma_latest_exists(times: Seq<Option<i128>>)
    requires
        times.len() > 0,
    ensures
        exists|i: int| is_latest(times, i),
    decreases times.len(),
{
    let n = times.len() - 1;
    if n == 0 {
        assert(is_latest(times, 0));
    } else {
        let shorter = times.drop_last();
        lemma_latest_exists(shorter);
        let best = choose|i: int| is_latest(shorter, i);
        let winner = if earlier(times, best, n) {
            n
        } else {
            best
        };
        assert forall|j: int| 0 <= j < times.len() && j != winner implies #[trigger] earlier(
            times,
            j,
            winner,
        ) by {
            if j < n && j != best {
                assert(earlier(shorter, j, best));
                assert(times[j] == shorter[j] && times[best] == shorter[best]);
            }
        }
        assert(is_latest(times, winner));
    }
}

/// The hash that is found is the whole content of the file with the hash in the
/// newest entry, whatever kind of entry that is. Where the directory is missing,
/// cannot be listed or is empty, or that file cannot be read, none is found.
pub proof fn law_latest_hash_is_found(
    dir: Seq<u8>,
    listing: Listing<Seq<DatedEntry<Seq<u8>>>, Seq<char>>,
    newest: int,
    content: Option<Seq<char>>,
)
    ensures
        ({
            let first = LatestStage::<Seq<u8>, Seq<char>>::List { dir };
            let then = next(first, LatestEvent::Listed(listing));
            match listing {
                Listing::Entries(entries) if entries.len() > 0 => {
                    &&& is_latest(times_of(entries), latest_of(entries))
                    &&& is_latest(times_of(entries), newest) ==> request_of(then) == (LatestRequest::<
                        Seq<u8>,
                        Seq<char>,
                    >::Read {
                        path: archive::hash_file_in(paths::joined(dir, entries[newest].name)),
                    })
                    &&& request_of(next(then, LatestEvent::Content(content))) == (
                    LatestRequest::<Seq<u8>, Seq<char>>::Found { hash: content })
                },
                _ => request_of(then) == (LatestRequest::<Seq<u8>, Seq<char>>::Found { hash: None }),
            }
        }),
{
    if let Listing::Entries(entries) = listing {
        if entries.len() > 0 {
            lemma_latest_exists(times_of(entries));
            if is_latest(times_of(entries), newest) {
                law_latest_is_unique(times_of(entries), newest, latest_of(entries));
            }
        }
    }
}

/// No entry was modified after the newest one, and of those modified at the same
/// time it is the last in the listing. An entry without a time is the newest only
/// if no entry has one.
pub proof fn law_newest_goes_by_time(times: Seq<Option<i128>>, i: int)
    ensures
        is_latest(times, i) <==> 0 <= i < times.len() && (forall|j: int|
            0 <= j < times.len() ==> match ((#[trigger] times[j]), times[i]) {
                (None, Some(_)) => true,
                (Some(_), None) => false,
                (None, None) => j <= i,
                (Some(t), Some(newest)) => t < newest || (t == newest && j <= i),
            }),
{
    if is_latest(times, i) {
        assert forall|j: int| 0 <= j < times.len() implies match ((#[trigger] times[j]), times[i]) {
            (None, Some(_)) => true,
            (Some(_), None) => false,
            (None, None) => j <= i,
            (Some(t), Some(newest)) => t < newest || (t == newest && j <= i),
        } by {
            if j != i {
                assert(earlier(times, j, i));
            }
        }
    }
}

/// The search lists the directory, then reads the file `.hash` in its newest
/// entry, and gives what that holds; where there is no entry, it gives nothing.
pub proof fn law_search_reads_the_newest_hash(
    dir: Seq<u8>,
    entries: Seq<DatedEntry<Seq<u8>>>,
    newest: int,
    content: Option<Seq<char>>,
    error: Seq<char>,
)
    requires
        is_latest(entries.map_values(|e: DatedEntry<Seq<u8>>| e.time), newest),
    ensures
        ({
            let first = LatestStage::<Seq<u8>, Seq<char>>::List { dir };
            let second = next(first, LatestEvent::Listed(Listing::Entries(entries)));
            let third = next(second, LatestEvent::Content(content));
            let found = LatestRequest::<Seq<u8>, Seq<char>>::Found { hash: content };
            let nothing = LatestRequest::<Seq<u8>, Seq<char>>::Found { hash: None };
            let empty = Seq::<DatedEntry<Seq<u8>>>::empty();
            &&& request_of(first) == (LatestRequest::<Seq<u8>, Seq<char>>::List { dir })
            &&& request_of(second) == (LatestRequest::<Seq<u8>, Seq<char>>::Read {
                path: paths::joined(
                    paths::joined(dir, entries[newest].name),
                    seq![46u8, 104, 97, 115, 104],
                ),
            })
            &&& request_of(third) == found
            &&& request_of(next(first, LatestEvent::Listed(Listing::Entries(empty)))) == nothing
            &&& request_of(next(first, LatestEvent::Listed(Listing::Missing))) == nothing
            &&& request_of(next(first, LatestEvent::Listed(Listing::Failed { error }))) == nothing
        }),
{
    assert(times_of(entries) =~= entries.map_values(|e: DatedEntry<Seq<u8>>| e.time));
    law_latest_hash_is_found(dir, Listing::Entries(entries), newest, content);
    archive::law_hash_file_is_named(paths::joined(dir, entries[newest].name));
}

/// The contracts see everything that these values hold, as it is: nothing is left
/// out, and nothing is changed but that bytes and texts are taken as sequences.
pub proof fn law_views_show_everything(
    dated_entry: DatedEntry<Vec<u8>>,
    latest_stage: LatestStage<Vec<u8>, String>,
    latest_event: LatestEvent<Vec<DatedEntry<Vec<u8>>>, String>,
    latest_request: LatestRequest<Vec<u8>, String>,
)
    ensures
        dated_entry@ == (DatedEntry { name: dated_entry.name@, time: dated_entry.time }),
        latest_stage@ == (match latest_stage {
            LatestStage::List { dir } => LatestStage::List { dir: dir@ },
            LatestStage::Read { path } => LatestStage::Read { path: path@ },
            LatestStage::Ended { hash } => LatestStage::Ended { hash: text::text_of(hash) },
        }),
        latest_event@ == (match latest_event {
            LatestEvent::Listed(listing) => LatestEvent::Listed(
                match listing {
                    Listing::Missing => Listing::Missing,
                    Listing::Failed { error } => Listing::Failed { error: error@ },
                    Listing::Entries(entries) => Listing::Entries(dated(entries@)),
                },
            ),
            LatestEvent::Content(content) => LatestEvent::Content(text::text_of(content)),
        }),
        latest_request@ == (match latest_request {
            LatestRequest::List { dir } => LatestRequest::List { dir: dir@ },
            LatestRequest::Read { path } => LatestRequest::Read { path: path@ },
            LatestRequest::Found { hash } => LatestRequest::Found { hash: text::text_of(hash) },
        }),
{
}

/// The entries of a directory are taken one by one, with their names and times.
pub proof fn law_dated_entries_keep_the_list(entries: Seq<DatedEntry<Vec<u8>>>, i: int)
    ensures
        dated(entries).len() == entries.len(),
        0 <= i < entries.len() ==> dated(entries)[i].name == entries[i].name@
            && dated(entries)[i].time == entries[i].time,
{
}

} // verus!
