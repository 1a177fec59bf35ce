use validation_archiver::backups::Listing;
use validation_archiver::latest::{
    get_latest_hash, latest_entry, DatedEntry, LatestEvent, LatestJob, LatestRequest,
};

fn entry(name: &str, time: Option<i128>) -> DatedEntry<Vec<u8>> {
    DatedEntry { name: name.as_bytes().to_vec(), time }
}

fn listed(entries: Vec<DatedEntry<Vec<u8>>>) -> LatestJob {
    let job = get_latest_hash(b"/r/p/a.py");
    assert_eq!(job.request(), LatestRequest::List { dir: b"/r/p/a.py".to_vec() });
    job.advance(LatestEvent::Listed(Listing::Entries(entries)))
}

#[test]
fn the_latest_entry() {
    assert_eq!(latest_entry(&[]), None);
    assert_eq!(latest_entry(&[None]), Some(0));
    assert_eq!(latest_entry(&[Some(1), None]), Some(0));
    assert_eq!(latest_entry(&[Some(1), Some(9), Some(4)]), Some(1));
    assert_eq!(latest_entry(&[Some(9), Some(1), Some(9), None]), Some(2));
    assert_eq!(latest_entry(&[None, None]), Some(1));
}

#[test]
fn the_hash_of_the_newest_entry_is_read_whole() {
    let entries = || {
        vec![entry("17", Some(5)), entry("notes", Some(9)), entry("18", Some(7)), entry("x", None)]
    };
    let job = listed(entries());
    assert_eq!(job.request(), LatestRequest::Read { path: b"/r/p/a.py/notes/.hash".to_vec() });
    assert_eq!(
        job.advance(LatestEvent::Content(Some(" h1\n".to_string()))).request(),
        LatestRequest::Found { hash: Some(" h1\n".to_string()) }
    );
    assert_eq!(
        listed(entries()).advance(LatestEvent::Content(None)).request(),
        LatestRequest::Found { hash: None }
    );
}

#[test]
fn no_hash_without_a_listing() {
    let none = LatestRequest::Found { hash: None };
    assert_eq!(listed(Vec::new()).request(), none);
    for listing in [Listing::Missing, Listing::Failed { error: "denied".to_string() }] {
        let job = get_latest_hash(b"/r/p/a.py").advance(LatestEvent::Listed(listing));
        assert_eq!(job.request(), none);
    }
}
