//! The flag files by which the tray asks the service to pause or to quit.
//!
//! Both are empty files in the service's directory; only their presence
//! counts.
use vstd::prelude::*;
use crate::text;

verus! {

/// The file whose presence pauses filtering.
pub const STOP_FLAG_NAME: &'static str = "stop.flag";

/// The file whose presence asks the service to quit.
pub const QUIT_FLAG_NAME: &'static str = "quit.flag";

/// Whether a file is among those of a directory.
pub open spec fn present(files: Seq<Seq<char>>, name: Seq<char>) -> bool {
    files.contains(name)
}

/// A directory's files without one of them.
pub open spec fn removed(files: Seq<Seq<char>>, name: Seq<char>) -> Seq<Seq<char>> {
    files.filter(|file: Seq<char>| file != name)
}

fn has_file(files: &[String], name: &str) -> (yes: bool)
    ensures
        yes == present(text::texts(files@), name@),
{
    let mut i: usize = 0;
    while i < files.len()
        invariant
            i <= files@.len(),
            forall|j: int| 0 <= j < i ==> (#[trigger] files@[j])@ != name@,
        decreases files@.len() - i,
    {
        if text::same_text(files[i].as_str(), name) {
            assert(text::texts(files@)[i as int] == name@);
            return true;
        }
        i = i + 1;
    }
    proof {
        if text::texts(files@).contains(name@) {
            let j = choose|j: int|
                0 <= j < text::texts(files@).len() && text::texts(files@)[j] == name@;
            assert(files@[j]@ == name@);
        }
    }
    false
}

/// The file to create to pause filtering.
pub fn set_stop_flag() -> (name: &'static str)
    ensures
        name@ == STOP_FLAG_NAME@,
{
    STOP_FLAG_NAME
}

/// The file to remove to resume filtering, if it is among those of the
/// directory. Nothing is to be done where it is not.
pub fn clear_stop_flag(files: &[String]) -> (name: Option<&'static str>)
    ensures
        match name {
            Some(n) => n@ == STOP_FLAG_NAME@ && present(text::texts(files@), STOP_FLAG_NAME@),
            None => !present(text::texts(files@), STOP_FLAG_NAME@),
        },
{
    if has_file(files, STOP_FLAG_NAME) {
        Some(STOP_FLAG_NAME)
    } else {
        None
    }
}

/// Whether filtering is paused.
pub fn stop_flag_is_set(files: &[String]) -> (set: bool)
    ensures
        set == present(text::texts(files@), STOP_FLAG_NAME@),
{
    has_file(files, STOP_FLAG_NAME)
}

/// The file to create to ask the service to quit.
pub fn set_quit_flag() -> (name: &'static str)
    ensures
        name@ == QUIT_FLAG_NAME@,
{
    QUIT_FLAG_NAME
}

/// The file to remove to take the request to quit back, if it is among those
/// of the directory.
pub fn clear_quit_flag(files: &[String]) -> (name: Option<&'static str>)
    ensures
        match name {
            Some(n) => n@ == QUIT_FLAG_NAME@ && present(text::texts(files@), QUIT_FLAG_NAME@),
            None => !present(text::texts(files@), QUIT_FLAG_NAME@),
        },
{
    if has_file(files, QUIT_FLAG_NAME) {
        Some(QUIT_FLAG_NAME)
    } else {
        None
    }
}

/// Whether the service is asked to quit.
pub fn quit_flag_is_set(files: &[String]) -> (set: bool)
    ensures
        set == present(text::texts(files@), QUIT_FLAG_NAME@),
{
    has_file(files, QUIT_FLAG_NAME)
}

/// What removing a flag file came to.
#[derive(Debug, Clone, Copy, PartialEq, Eq, Structural)]
pub enum Removal {
    /// It is gone.
    Done,
    /// It was gone already.
    NotFound,
    /// It is still there.
    Failed,
}

/// Whether a removal is worth a warning: a flag that stays would trap the
/// service in it.
pub fn removal_failed(removal: Removal) -> (failed: bool)
    ensures
        failed == (removal == Removal::Failed),
{
    match removal {
        Removal::Done => false,
        Removal::NotFound => false,
        Removal::Failed => true,
    }
}

/// A flag that was created is set, and one that was removed is not; neither
/// touches the other.
pub proof fn law_flags_are_independent(files: Seq<Seq<char>>)
    ensures
        present(files.push(STOP_FLAG_NAME@), STOP_FLAG_NAME@),
        present(files.push(QUIT_FLAG_NAME@), QUIT_FLAG_NAME@),
        !present(removed(files, STOP_FLAG_NAME@), STOP_FLAG_NAME@),
        !present(removed(files, QUIT_FLAG_NAME@), QUIT_FLAG_NAME@),
        present(files.push(STOP_FLAG_NAME@), QUIT_FLAG_NAME@) == present(files, QUIT_FLAG_NAME@),
        present(files.push(QUIT_FLAG_NAME@), STOP_FLAG_NAME@) == present(files, STOP_FLAG_NAME@),
        present(removed(files, STOP_FLAG_NAME@), QUIT_FLAG_NAME@) == present(
            files,
            QUIT_FLAG_NAME@,
        ),
        present(removed(files, QUIT_FLAG_NAME@), STOP_FLAG_NAME@) == present(
            files,
            STOP_FLAG_NAME@,
        ),
{
    reveal_strlit("stop.flag");
    reveal_strlit("quit.flag");
    assert(STOP_FLAG_NAME@[0] == 's');
    assert(QUIT_FLAG_NAME@[0] == 'q');
    lemma_push(files, STOP_FLAG_NAME@, STOP_FLAG_NAME@);
    lemma_push(files, STOP_FLAG_NAME@, QUIT_FLAG_NAME@);
    lemma_push(files, QUIT_FLAG_NAME@, QUIT_FLAG_NAME@);
    lemma_push(files, QUIT_FLAG_NAME@, STOP_FLAG_NAME@);
    lemma_removed(files, STOP_FLAG_NAME@, STOP_FLAG_NAME@);
    lemma_removed(files, STOP_FLAG_NAME@, QUIT_FLAG_NAME@);
    lemma_removed(files, QUIT_FLAG_NAME@, QUIT_FLAG_NAME@);
    lemma_removed(files, QUIT_FLAG_NAME@, STOP_FLAG_NAME@);
}

proof fn lemma_push(files: Seq<Seq<char>>, added: Seq<char>, name: Seq<char>)
    ensures
        files.push(added).contains(name) <==> files.contains(name) || name == added,
{
    let more = files.push(added);
    if more.contains(name) && name != added {
        let i = choose|i: int| 0 <= i < more.len() && more[i] == name;
        assert(files[i] == name);
    }
    if files.contains(name) {
        let i = choose|i: int| 0 <= i < files.len() && files[i] == name;
        assert(more[i] == name);
    }
    if name == added {
        assert(more[files.len() as int] == name);
    }
}

proof fn lemma_removed(files: Seq<Seq<char>>, gone: Seq<char>, name: Seq<char>)
    ensures
        removed(files, gone).contains(name) <==> files.contains(name) && name != gone,
    decreases files.len(),
{
    reveal(Seq::filter);
    if files.len() > 0 {
        let rest = files.drop_last();
        lemma_removed(rest, gone, name);
        assert(files =~= rest.push(files.last()));
        lemma_push(rest, files.last(), name);
        lemma_push(removed(rest, gone), files.last(), name);
    }
}

/// A file is there if and only if one of the directory's names is its name, letter
/// by letter; one that is removed is there no more, and the others stay.
pub proof fn law_files_are_known_by_their_names(
    files: Seq<Seq<char>>,
    gone: Seq<char>,
    name: Seq<char>,
)
    ensures
        present(files, name) <==> exists|i: int| 0 <= i < files.len() && #[trigger] files[i] == name,
        present(removed(files, gone), name) <==> present(files, name) && name != gone,
{
    lemma_removed(files, gone, name);
}

} // verus!
