use validation_archiver::backups::{
    rotate_backups, rotation_needed, BackupEntry, Listing, RotationRequest,
};
use validation_archiver::latest::latest_entry;

fn dirs(times: &[i128]) -> Vec<BackupEntry> {
    times.iter().map(|t| BackupEntry { is_dir: true, time: *t }).collect()
}

/// The positions that a rotation removes if nothing fails.
fn removed(entries: &[BackupEntry], max_backups: usize) -> Vec<usize> {
    let mut job = rotate_backups(Listing::Entries(entries.to_vec()), max_backups);
    let mut gone: Vec<usize> = Vec::new();
    while let RotationRequest::Remove { position } = job.request() {
        gone.push(position);
        job = job.advance(None);
    }
    assert_eq!(job.request(), RotationRequest::Done);
    gone
}

fn without(entries: &[BackupEntry], gone: &[usize]) -> Vec<BackupEntry> {
    (0..entries.len()).filter(|i| !gone.contains(i)).map(|i| entries[i]).collect()
}

#[test]
fn nothing_goes_below_the_limit() {
    assert_eq!(removed(&[], 0), Vec::<usize>::new());
    assert_eq!(removed(&dirs(&[3, 1, 2]), 3), Vec::<usize>::new());
    assert_eq!(removed(&dirs(&[3, 1, 2]), 100), Vec::<usize>::new());
}

#[test]
fn whether_a_rotation_is_needed() {
    assert!(!rotation_needed(&[], 0));
    assert!(!rotation_needed(&[false, false], 0));
    assert!(rotation_needed(&[false, true], 0));
    assert!(!rotation_needed(&[true, false, true], 2));
    assert!(rotation_needed(&[true, false, true], 1));
}

#[test]
fn oldest_go_first() {
    assert_eq!(removed(&dirs(&[5, 3, 5, 1]), 2), vec![3, 1]);
    assert_eq!(removed(&dirs(&[5, 3, 5, 1]), 0), vec![3, 1, 0, 2]);
    assert_eq!(removed(&dirs(&[-1, -2, 0]), 1), vec![1, 0]);
}

#[test]
fn equal_times_go_in_the_order_of_the_listing() {
    assert_eq!(removed(&dirs(&[7, 7, 7, 7]), 1), vec![0, 1, 2]);
}

#[test]
fn only_directories_count_and_go() {
    let mut entries = dirs(&[9, 4, 2, 8]);
    entries[2].is_dir = false;
    assert_eq!(removed(&entries, 3), Vec::<usize>::new());
    assert_eq!(removed(&entries, 1), vec![1, 3]);
    assert_eq!(removed(&entries, 0), vec![1, 3, 0]);
}

#[test]
fn a_rotation_stops_at_the_first_failure() {
    let entries = dirs(&[5, 3, 4, 1, 2]);
    let mut job = rotate_backups(Listing::Entries(entries.clone()), 1);
    assert_eq!(job.request(), RotationRequest::Remove { position: 3 });
    job = job.advance(None);
    assert_eq!(job.request(), RotationRequest::Remove { position: 4 });
    job = job.advance(Some("busy".to_string()));
    assert_eq!(job.request(), RotationRequest::Failed { error: "busy".to_string() });
    assert_eq!(job.removed, 1);
    assert_eq!(removed(&entries, 4), vec![3]);
}

#[test]
fn rotations_compose() {
    let entries = dirs(&[50, 30, 40, 10, 20, 60, 0]);
    for a in 0..9usize {
        for b in 0..9usize {
            let first = without(&entries, &removed(&entries, a));
            let then = without(&first, &removed(&first, b));
            assert_eq!(then, without(&entries, &removed(&entries, a.min(b))));
        }
        let first = without(&entries, &removed(&entries, a));
        assert_eq!(removed(&first, a), Vec::<usize>::new());
    }
}

#[test]
fn rotation_agrees_with_a_stable_sort() {
    let mut seed: u64 = 12345;
    for n in 0..60usize {
        let mut entries: Vec<BackupEntry> = Vec::new();
        for _ in 0..n {
            seed = seed.wrapping_mul(6364136223846793005).wrapping_add(1442695040888963407);
            entries.push(BackupEntry {
                is_dir: (seed >> 40) % 4 != 0,
                time: (seed >> 60) as i128,
            });
        }
        let mut order: Vec<usize> = (0..n).filter(|i| entries[*i].is_dir).collect();
        order.sort_by_key(|i| entries[*i].time);
        for max in [0usize, 1, 10, 59] {
            let gone = removed(&entries, max);
            assert_eq!(gone, order[..order.len().saturating_sub(max)].to_vec());
            if max > 0 && n > 0 {
                let listed: Vec<Option<i128>> = entries.iter().map(|e| Some(e.time)).collect();
                assert!(!gone.contains(&latest_entry(&listed).unwrap()));
            }
        }
    }
}

#[test]
fn the_limit_is_what_is_left() {
    let times: Vec<i128> = (0..130).rev().collect();
    let gone = removed(&dirs(&times), 100);
    assert_eq!(gone.len(), 30);
    for i in 0..130usize {
        assert_eq!(gone.contains(&i), times[i] < 30);
    }
}

#[test]
fn a_missing_directory_needs_no_rotation() {
    assert_eq!(rotate_backups(Listing::Missing, 0).request(), RotationRequest::Done);
}

#[test]
fn the_error_of_a_directory_that_cannot_be_listed_is_reported() {
    let listing = Listing::Failed { error: "Not a directory".to_string() };
    assert_eq!(
        rotate_backups(listing, 0).request(),
        RotationRequest::Failed { error: "Not a directory".to_string() }
    );
}
