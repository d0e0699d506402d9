//! What is written to the output directory for a hit.

use vstd::prelude::*;
use vstd::utf8::encode_utf8;

verus! {

/// One step on the files of the output directory.
#[derive(Debug)]
pub enum FileAction {
    /// Create the file, or empty it, and write these bytes.
    Write { name: String, bytes: Vec<u8> },
    /// Move a file over another one.
    Rename { from: String, to: String },
    /// Let nobody but the owner read or write the file.
    Restrict { name: String },
    /// Create the file, or empty it, and write this text. It holds no secret.
    Note { name: String, text: String },
}

/// A step on the files, as a mathematical value.
pub enum FileStep {
    Write { name: Seq<char>, bytes: Seq<u8> },
    Rename { from: Seq<char>, to: Seq<char> },
    Restrict { name: Seq<char> },
    Note { name: Seq<char>, text: Seq<char> },
}

impl View for FileAction {
    type V = FileStep;

    open spec fn view(&self) -> FileStep {
        match *self {
            FileAction::Write { name, bytes } => FileStep::Write { name: name@, bytes: bytes@ },
            FileAction::Rename { from, to } => FileStep::Rename { from: from@, to: to@ },
            FileAction::Restrict { name } => FileStep::Restrict { name: name@ },
            FileAction::Note { name, text } => FileStep::Note { name: name@, text: text@ },
        }
    }
}

/// The steps of a list of actions.
pub open spec fn steps(actions: Seq<FileAction>) -> Seq<FileStep> {
    Seq::new(actions.len(), |i: int| actions[i]@)
}

/// The steps that store a private key as `name`: it is written to another file first,
/// moved into place, and kept from everybody else.
pub open spec fn store_steps(name: Seq<char>, key: Seq<u8>) -> Seq<FileStep> {
    seq![
        FileStep::Write { name: name + ".tmp"@, bytes: key },
        FileStep::Rename { from: name + ".tmp"@, to: name },
        FileStep::Restrict { name },
    ]
}

/// The steps that store a private key under its identifier: the key, then a text file
/// with the identifier.
pub open spec fn identity_steps(id: Seq<char>, key: Seq<u8>) -> Seq<FileStep> {
    store_steps(id, key).push(FileStep::Note { name: id + "-peerid.txt"@, text: id })
}

/// The steps for a hit: the key under the identifier, and once more under `export` where
/// there is such a name.
pub open spec fn hit_steps(id: Seq<char>, key: Seq<u8>, export: Option<Seq<char>>) -> Seq<
    FileStep,
> {
    match export {
        Some(name) => identity_steps(id, key) + store_steps(name, key),
        None => identity_steps(id, key),
    }
}

/// A copy of a byte string.
fn copy_bytes(bytes: &Vec<u8>) -> (r: Vec<u8>)
    ensures
        r@ == bytes@,
{
    let r: Vec<u8> = bytes.clone();
    assert(r@ =~= bytes@);
    r
}

/// Plans to store a private key as `name`.
pub fn plan_write_named_key(actions: &mut Vec<FileAction>, name: &str, key: &Vec<u8>)
    ensures
        steps(final(actions)@) == steps(old(actions)@) + store_steps(name@, key@),
{
    let mut tmp = name.to_string();
    tmp.append(".tmp");
    actions.push(FileAction::Write { name: tmp.clone(), bytes: copy_bytes(key) });
    actions.push(FileAction::Rename { from: tmp, to: name.to_string() });
    actions.push(FileAction::Restrict { name: name.to_string() });
    assert(steps(actions@) =~= steps(old(actions)@) + store_steps(name@, key@));
}

/// Plans to store a private key under its identifier, with the identifier in a text file
/// beside it.
pub fn plan_write_key(actions: &mut Vec<FileAction>, id: &str, key: &Vec<u8>)
    ensures
        steps(final(actions)@) == steps(old(actions)@) + identity_steps(id@, key@),
{
    plan_write_named_key(actions, id, key);
    let ghost stored = steps(actions@);
    let mut note = id.to_string();
    note.append("-peerid.txt");
    actions.push(FileAction::Note { name: note, text: id.to_string() });
    assert(steps(actions@) =~= stored.push(
        FileStep::Note { name: id@ + "-peerid.txt"@, text: id@ },
    ));
    assert(steps(actions@) =~= steps(old(actions)@) + identity_steps(id@, key@));
}

/// Plans what a hit with the identifier `id`, the private key `key` and, where it is
/// exported, the name `export` leaves in the output directory.
pub fn plan_files(id: &str, key: &Vec<u8>, export: Option<&String>) -> (r: Vec<FileAction>)
    ensures
        steps(r@) == hit_steps(
            id@,
            key@,
            match export {
                Some(name) => Some(name@),
                None => None,
            },
        ),
{
    let mut actions: Vec<FileAction> = Vec::new();
    plan_write_key(&mut actions, id, key);
    if let Some(name) = export {
        plan_write_named_key(&mut actions, name.as_str(), key);
    }
    assert(steps(actions@) =~= hit_steps(
        id@,
        key@,
        match export {
            Some(name) => Some(name@),
            None => None,
        },
    ));
    actions
}

/// Wherever key bytes are written, the file is moved into place next, and the file in
/// place is restricted after that. Nothing else is ever written but the identifier.
pub proof fn law_keys_are_moved_and_restricted(
    id: Seq<char>,
    key: Seq<u8>,
    export: Option<Seq<char>>,
    i: int,
)
    requires
        0 <= i < hit_steps(id, key, export).len(),
    ensures
        match hit_steps(id, key, export)[i] {
            FileStep::Write { name, bytes } => {
                let all = hit_steps(id, key, export);
                &&& bytes == key
                &&& i + 2 < all.len()
                &&& all[i + 1] matches FileStep::Rename { from, to } && from == name && all[i + 2]
                    == (FileStep::Restrict { name: to })
            },
            FileStep::Note { name, text } => text == id,
            _ => true,
        },
{
}

/// An action stands for the step with the same names and contents.
pub proof fn law_actions_are_the_steps_they_name(action: FileAction)
    ensures
        match action {
            FileAction::Write { name, bytes } => action@ == (FileStep::Write {
                name: name@,
                bytes: bytes@,
            }),
            FileAction::Rename { from, to } => action@ == (FileStep::Rename {
                from: from@,
                to: to@,
            }),
            FileAction::Restrict { name } => action@ == (FileStep::Restrict { name: name@ }),
            FileAction::Note { name, text } => action@ == (FileStep::Note {
                name: name@,
                text: text@,
            }),
        },
{
}

/// The files of a directory with their contents, and the names of those that nobody but the
/// owner can read or write.
#[verifier::ext_equal]
pub struct Directory {
    pub files: Map<Seq<char>, Seq<u8>>,
    pub private: Set<Seq<char>>,
}

/// The directory after a file was created, or emptied, and written. A file that was there
/// keeps its restriction.
pub open spec fn after_write(dir: Directory, name: Seq<char>, bytes: Seq<u8>) -> Directory {
    Directory {
        files: dir.files.insert(name, bytes),
        private: if dir.files.dom().contains(name) {
            dir.private
        } else {
            dir.private.remove(name)
        },
    }
}

/// The directory after a step. A file that is moved takes its contents and its restriction
/// along, and replaces the file that had the name before.
pub open spec fn after_step(dir: Directory, step: FileStep) -> Directory {
    match step {
        FileStep::Write { name, bytes } => after_write(dir, name, bytes),
        FileStep::Note { name, text } => after_write(dir, name, encode_utf8(text)),
        FileStep::Rename { from, to } => if from == to || !dir.files.dom().contains(from) {
            dir
        } else {
            Directory {
                files: dir.files.remove(from).insert(to, dir.files[from]),
                private: if dir.private.contains(from) {
                    dir.private.remove(from).insert(to)
                } else {
                    dir.private.remove(from).remove(to)
                },
            }
        },
        FileStep::Restrict { name } => if dir.files.dom().contains(name) {
            Directory { files: dir.files, private: dir.private.insert(name) }
        } else {
            dir
        },
    }
}

/// The directory after some steps, taken one after the other.
pub open spec fn after_steps(dir: Directory, list: Seq<FileStep>) -> Directory {
    list.fold_left(dir, |d: Directory, step: FileStep| after_step(d, step))
}

/// One step more.
proof fn lemma_after_push(dir: Directory, list: Seq<FileStep>, step: FileStep)
    ensures
        after_steps(dir, list.push(step)) == after_step(after_steps(dir, list), step),
{
    assert(list.push(step).drop_last() =~= list);
}

/// Two lists of steps, one behind the other.
proof fn lemma_after_both(dir: Directory, first: Seq<FileStep>, second: Seq<FileStep>)
    ensures
        after_steps(dir, first + second) == after_steps(after_steps(dir, first), second),
    decreases second.len(),
{
    if second.len() == 0 {
        assert(first + second =~= first);
    } else {
        let init = second.drop_last();
        lemma_after_both(dir, first, init);
        lemma_after_push(dir, first + init, second.last());
        lemma_after_push(after_steps(dir, first), init, second.last());
        assert((first + init).push(second.last()) =~= first + second);
        assert(init.push(second.last()) =~= second);
    }
}

/// A key that is stored as `name` is then the content of the file with exactly this name,
/// which is restricted. The file that it was written to first is gone, and every other file
/// is as it was.
pub proof fn law_key_lands_under_its_name(dir: Directory, name: Seq<char>, key: Seq<u8>)
    ensures
        ({
            let after = after_steps(dir, store_steps(name, key));
            &&& after.files.dom().contains(name)
            &&& after.files[name] == key
            &&& after.private.contains(name)
            &&& !after.files.dom().contains(name + ".tmp"@)
            &&& forall|other: Seq<char>|
                other != name && other != name + ".tmp"@ ==> {
                    &&& #[trigger] after.files.dom().contains(other) == dir.files.dom().contains(
                        other,
                    )
                    &&& after.files[other] == dir.files[other]
                    &&& after.private.contains(other) == dir.private.contains(other)
                }
        }),
{
    reveal_strlit(".tmp");
    let tmp = name + ".tmp"@;
    assert(tmp.len() == name.len() + 4);
    let list = store_steps(name, key);
    let none = Seq::<FileStep>::empty();
    let one = none.push(list[0]);
    let two = one.push(list[1]);
    lemma_after_push(dir, none, list[0]);
    lemma_after_push(dir, one, list[1]);
    lemma_after_push(dir, two, list[2]);
    assert(list =~= two.push(list[2]));
    assert(after_steps(dir, none) == dir);
}

/// After the steps for a hit, the file named exactly by the identifier holds the key, and so
/// does the one named exactly by the export name where there is one. Both are restricted. The
/// identifier itself stands in a file beside its key, unless the export has just that name.
/// No other file has changed. An identifier holds no dot.
pub proof fn law_hit_leaves_its_key(
    dir: Directory,
    id: Seq<char>,
    key: Seq<u8>,
    export: Option<Seq<char>>,
)
    requires
        !id.contains('.'),
    ensures
        ({
            let after = after_steps(dir, hit_steps(id, key, export));
            let note = id + "-peerid.txt"@;
            &&& after.files.dom().contains(id)
            &&& after.files[id] == key
            &&& after.private.contains(id)
            &&& export != Some(note) ==> after.files.dom().contains(note) && after.files[note]
                == encode_utf8(id)
            &&& export is Some ==> {
                &&& after.files.dom().contains(export->0)
                &&& after.files[export->0] == key
                &&& after.private.contains(export->0)
            }
            &&& forall|other: Seq<char>|
                {
                    &&& other != id
                    &&& other != id + ".tmp"@
                    &&& other != note
                    &&& export is Some ==> other != export->0 && other != export->0 + ".tmp"@
                } ==> {
                    &&& #[trigger] after.files.dom().contains(other) == dir.files.dom().contains(
                        other,
                    )
                    &&& after.files[other] == dir.files[other]
                    &&& after.private.contains(other) == dir.private.contains(other)
                }
        }),
{
    reveal_strlit(".tmp");
    reveal_strlit("-peerid.txt");
    let note = id + "-peerid.txt"@;
    let stored = after_steps(dir, store_steps(id, key));
    law_key_lands_under_its_name(dir, id, key);
    lemma_after_push(dir, store_steps(id, key), FileStep::Note { name: note, text: id });
    let noted = after_steps(dir, identity_steps(id, key));
    assert(noted == after_write(stored, note, encode_utf8(id)));
    assert(note.len() == id.len() + 11 && note.last() == 't');
    if let Some(name) = export {
        let tmp = name + ".tmp"@;
        lemma_after_both(dir, identity_steps(id, key), store_steps(name, key));
        law_key_lands_under_its_name(noted, name, key);
        assert(tmp.last() == 'p');
        lemma_no_dot(id, name, ".tmp"@, 0);
        assert(tmp != note && id != note);
        let after = after_steps(dir, hit_steps(id, key, export));
        assert(noted.files.dom().contains(id) && noted.files[id] == key && noted.private.contains(
            id,
        ));
        if name != id {
            assert(after.files.dom().contains(id) == noted.files.dom().contains(id));
        }
        assert(name != note ==> after.files.dom().contains(note));
        assert forall|other: Seq<char>|
            other != id && other != id + ".tmp"@ && other != note && other != name && other
                != tmp implies {
            &&& #[trigger] after.files.dom().contains(other) == dir.files.dom().contains(other)
            &&& after.files[other] == dir.files[other]
            &&& after.private.contains(other) == dir.private.contains(other)
        } by {
            assert(after.files.dom().contains(other) == noted.files.dom().contains(other));
            assert(noted.files.dom().contains(other) == stored.files.dom().contains(other));
        }
    }
}

/// Two hits with different identifiers leave two keys, each under its own identifier. An
/// export of the second one must not have the identifier of the first one for its name.
pub proof fn law_two_hits_leave_two_keys(
    dir: Directory,
    id: Seq<char>,
    key: Seq<u8>,
    export: Option<Seq<char>>,
    other_id: Seq<char>,
    other_key: Seq<u8>,
    other_export: Option<Seq<char>>,
)
    requires
        !id.contains('.'),
        !other_id.contains('.'),
        id != other_id,
        other_export != Some(id),
    ensures
        ({
            let first = after_steps(dir, hit_steps(id, key, export));
            let after = after_steps(first, hit_steps(other_id, other_key, other_export));
            &&& after.files.dom().contains(id)
            &&& after.files[id] == key
            &&& after.private.contains(id)
            &&& after.files.dom().contains(other_id)
            &&& after.files[other_id] == other_key
            &&& after.private.contains(other_id)
        }),
{
    reveal_strlit(".tmp");
    reveal_strlit("-peerid.txt");
    let first = after_steps(dir, hit_steps(id, key, export));
    law_hit_leaves_its_key(dir, id, key, export);
    law_hit_leaves_its_key(first, other_id, other_key, other_export);
    let after = after_steps(first, hit_steps(other_id, other_key, other_export));
    lemma_no_dot(id, other_id, ".tmp"@, 0);
    lemma_no_dot(id, other_id, "-peerid.txt"@, 7);
    if let Some(name) = other_export {
        lemma_no_dot(id, name, ".tmp"@, 0);
    }
    assert(after.files.dom().contains(id) == first.files.dom().contains(id));
}

/// A text without a dot does not end like one with a dot.
proof fn lemma_no_dot(s: Seq<char>, start: Seq<char>, end: Seq<char>, at: int)
    requires
        !s.contains('.'),
        0 <= at < end.len(),
        end[at] == '.',
    ensures
        s != start + end,
{
    if s == start + end {
        assert(s[start.len() + at] == '.');
        assert(s.contains(s[start.len() + at]));
    }
}

/// The steps for a hit, one by one.
pub proof fn law_steps_of_a_hit(id: Seq<char>, key: Seq<u8>, name: Seq<char>)
    ensures
        hit_steps(id, key, None) == seq![
            FileStep::Write { name: id + ".tmp"@, bytes: key },
            FileStep::Rename { from: id + ".tmp"@, to: id },
            FileStep::Restrict { name: id },
            FileStep::Note { name: id + "-peerid.txt"@, text: id },
        ],
        hit_steps(id, key, Some(name)) == hit_steps(id, key, None) + seq![
            FileStep::Write { name: name + ".tmp"@, bytes: key },
            FileStep::Rename { from: name + ".tmp"@, to: name },
            FileStep::Restrict { name },
        ],
{
    assert(hit_steps(id, key, None) =~= seq![
        FileStep::Write { name: id + ".tmp"@, bytes: key },
        FileStep::Rename { from: id + ".tmp"@, to: id },
        FileStep::Restrict { name: id },
        FileStep::Note { name: id + "-peerid.txt"@, text: id },
    ]);
}

} // verus!
