//! Which files of a watched directory are archived.

use vstd::prelude::*;
use vstd::utf8::*;

use crate::paths;

verus! {

/// The name of the files that list what is not to be archived.
pub fn ignore_file_name() -> (name: &'static str)
    ensures
        name@ == ".vaignore"@,
{
    ".vaignore"
}

/// An entry below the watched directory is passed over, with everything below
/// it, if it is called `__pycache__` or `target` or its name ends in `.md`.
pub open spec fn is_watched(name: Seq<u8>) -> bool {
    &&& name != encode_utf8("__pycache__"@)
    &&& name != encode_utf8("target"@)
    &&& !encode_utf8(".md"@).is_suffix_of(name)
}

/// Whether the entry with this name is looked at.
pub fn keep_entry(name: &[u8]) -> (keep: bool)
    ensures
        keep == is_watched(name@),
        keep <==> {
            &&& name@ != seq![95u8, 95, 112, 121, 99, 97, 99, 104, 101, 95, 95]
            &&& name@ != seq![116u8, 97, 114, 103, 101, 116]
            &&& !(name@.len() >= 3 && name@[name@.len() - 3] == 46 && name@[name@.len() - 2] == 109
                && name@[name@.len() - 1] == 100)
        },
{
    proof {
        law_only_these_names_are_passed_over(name@);
    }
    !paths::same_bytes(name, "__pycache__".as_bytes()) && !paths::same_bytes(
        name,
        "target".as_bytes(),
    ) && !ends_with(name, ".md".as_bytes())
}

fn ends_with(name: &[u8], end: &[u8]) -> (yes: bool)
    ensures
        yes == end@.is_suffix_of(name@),
{
    if name.len() < end.len() {
        return false;
    }
    let tail = vstd::slice::slice_subrange(name, name.len() - end.len(), name.len());
    paths::same_bytes(tail, end)
}

/// An entry that a walk through the watched directory came upon.
#[derive(PartialEq, Eq, Debug)]
pub struct WalkEntry {
    pub path: Vec<u8>,
    /// Whether it is a file; `None` where that is not known.
    pub is_file: Option<bool>,
}

/// The paths of the files among the entries, in order. `None` stands for an
/// entry that could not be read.
pub open spec fn files_of(entries: Seq<Option<WalkEntry>>) -> Seq<Seq<u8>>
    decreases entries.len(),
{
    if entries.len() == 0 {
        seq![]
    } else {
        let before = files_of(entries.drop_last());
        match entries.last() {
            Some(entry) => if entry.is_file == Some(true) {
                before.push(entry.path@)
            } else {
                before
            },
            None => before,
        }
    }
}

/// The entry could be read, is a file, and lies at `path`.
pub open spec fn is_file_at(entry: Option<WalkEntry>, path: Seq<u8>) -> bool {
    entry matches Some(e) && e.is_file == Some(true) && e.path@ == path
}

/// The files to archive, out of what a walk through the watched directory came
/// upon.
pub fn get_monitored_files(entries: Vec<Option<WalkEntry>>) -> (files: Vec<Vec<u8>>)
    ensures
        paths::path_texts(files@) == files_of(entries@),
{
    let mut files: Vec<Vec<u8>> = Vec::new();
    let mut i: usize = 0;
    assert(paths::path_texts(files@) =~= files_of(entries@.take(0)));
    while i < entries.len()
        invariant
            i <= entries.len(),
            paths::path_texts(files@) == files_of(entries@.take(i as int)),
        decreases entries.len() - i,
    {
        assert(entries@.take(i + 1).drop_last() == entries@.take(i as int));
        let ghost before = files@;
        if let Some(entry) = &entries[i] {
            if let Some(true) = entry.is_file {
                files.push(vstd::slice::slice_to_vec(entry.path.as_slice()));
                assert(paths::path_texts(files@) =~= paths::path_texts(before).push(entry.path@));
            }
        }
        i += 1;
    }
    assert(entries@.take(i as int) == entries@);
    files
}

/// A path is archived exactly if one of the entries that could be read has it
/// and is a file.
pub proof fn law_files_are_archived(entries: Seq<Option<WalkEntry>>, path: Seq<u8>)
    ensures
        files_of(entries).contains(path) <==> exists|i: int|
            0 <= i < entries.len() && is_file_at(#[trigger] entries[i], path),
    decreases entries.len(),
{
    if entries.len() > 0 {
        let shorter = entries.drop_last();
        let before = files_of(shorter);
        let all = files_of(entries);
        law_files_are_archived(shorter, path);
        if before.contains(path) {
            let k = before.index_of(path);
            assert(all[k] == path);
            let i = choose|i: int| 0 <= i < shorter.len() && is_file_at(#[trigger] shorter[i], path);
            assert(is_file_at(entries[i], path));
        }
        if is_file_at(entries.last(), path) {
            assert(all.last() == path);
            assert(is_file_at(entries[entries.len() - 1], path));
        }
        if all.contains(path) && !before.contains(path) {
            let k = all.index_of(path);
            if k < before.len() {
                assert(before[k] == path);
            }
            assert(is_file_at(entries[entries.len() - 1], path));
        }
        if exists|i: int| 0 <= i < entries.len() && is_file_at(#[trigger] entries[i], path) {
            let i = choose|i: int| 0 <= i < entries.len() && is_file_at(#[trigger] entries[i], path);
            if i < shorter.len() {
                assert(is_file_at(shorter[i], path));
            }
        }
    }
}

/// An entry is passed over exactly if it is called `__pycache__` or `target`, or
/// if the last three bytes of its name are those of `.md`.
pub proof fn law_only_these_names_are_passed_over(name: Seq<u8>)
    ensures
        is_watched(name) <==> {
            &&& name != seq![95u8, 95, 112, 121, 99, 97, 99, 104, 101, 95, 95]
            &&& name != seq![116u8, 97, 114, 103, 101, 116]
            &&& !(name.len() >= 3 && name[name.len() - 3] == 46 && name[name.len() - 2] == 109
                && name[name.len() - 1] == 100)
        },
{
    reveal_strlit("__pycache__");
    reveal_strlit("target");
    reveal_strlit(".md");
    is_ascii_chars_encode_utf8("__pycache__"@);
    is_ascii_chars_encode_utf8("target"@);
    is_ascii_chars_encode_utf8(".md"@);
    assert(encode_utf8("__pycache__"@) =~= seq![95u8, 95, 112, 121, 99, 97, 99, 104, 101, 95, 95]);
    assert(encode_utf8("target"@) =~= seq![116u8, 97, 114, 103, 101, 116]);
    let end = encode_utf8(".md"@);
    assert(end =~= seq![46u8, 109, 100]);
    let n = name.len() as int;
    if n >= 3 {
        let tail = name.subrange(n - 3, n);
        assert(tail[0] == name[n - 3] && tail[1] == name[n - 2] && tail[2] == name[n - 1]);
        if name[n - 3] == 46 && name[n - 2] == 109 && name[n - 1] == 100 {
            assert(tail =~= end);
            assert(end.is_suffix_of(name));
        }
        if end.is_suffix_of(name) {
            assert(tail == end);
            assert(end[0] == 46 && end[1] == 109 && end[2] == 100);
        }
    }
}

/// The files of two walks one after the other are those of the first and then
/// those of the second; and of one entry the file is the entry itself, exactly if
/// it could be read and is known to be a file.
pub proof fn law_files_keep_their_order(
    first: Seq<Option<WalkEntry>>,
    second: Seq<Option<WalkEntry>>,
    entry: WalkEntry,
)
    ensures
        files_of(first + second) == files_of(first) + files_of(second),
        files_of(seq![None::<WalkEntry>]) == Seq::<Seq<u8>>::empty(),
        entry.is_file == Some(true) ==> files_of(seq![Some(entry)]) == seq![entry.path@],
        entry.is_file != Some(true) ==> files_of(seq![Some(entry)]) == Seq::<Seq<u8>>::empty(),
    decreases second.len(),
{
    let none = seq![None::<WalkEntry>];
    let one = seq![Some(entry)];
    assert(none.drop_last() =~= Seq::<Option<WalkEntry>>::empty());
    assert(one.drop_last() =~= Seq::<Option<WalkEntry>>::empty());
    assert(files_of(Seq::<Option<WalkEntry>>::empty()) =~= Seq::<Seq<u8>>::empty());
    assert(files_of(none) =~= Seq::<Seq<u8>>::empty());
    if entry.is_file == Some(true) {
        assert(files_of(one) =~= seq![entry.path@]);
    }
    if second.len() == 0 {
        assert(first + second =~= first);
        assert(files_of(first) + files_of(second) =~= files_of(first));
    } else {
        let both = first + second;
        assert(both.drop_last() =~= first + second.drop_last());
        assert(both.last() == second.last());
        law_files_keep_their_order(first, second.drop_last(), entry);
        assert(files_of(both) =~= files_of(first) + files_of(second));
    }
}

} // verus!
