//! Where the files of a profile lie: below `data`, in a directory named by
//! the profile's identifier.

use std::path::PathBuf;
use vstd::prelude::*;
use vstd::string::StringExecFns;

verus! {

/// A path of the file system, as `std` holds it.
#[verifier::external_type_specification]
#[verifier::external_body]
pub struct ExPathBuf(PathBuf);

/// Calls `PathBuf::from` on a text. A plain name is a path of one component,
/// the name itself; of any other text nothing is said.
#[verifier::external_body]
fn path_from(text: &str) -> (path: PathBuf)
    ensures
        is_plain_name(text@) ==> components(path) == seq![text@],
{
    PathBuf::from(text)
}

/// Calls `Path::join` on a path and a text. A plain name extends the path by
/// one component, the name itself; of any other text nothing is said, since
/// it may name an absolute path, or one of several components, and which
/// texts do depends on the platform.
#[verifier::external_body]
fn path_join(base: &PathBuf, part: &str) -> (path: PathBuf)
    ensures
        is_plain_name(part@) ==> components(path) == components(*base).push(part@),
{
    base.join(part)
}

/// The name of a profile's file with the given extension: `profile.pb` for
/// `pb`, and `profile.` for an empty extension. The extension is taken as it
/// is.
pub fn profile_file_name(extension: &str) -> (name: String)
    ensures
        name@ == file_name(extension@),
{
    let mut name = String::from_str("profile.");
    name.append(extension);
    name
}

/// The path of a profile's file: `data`, joined with the profile's
/// identifier, joined with the file's name. Where the identifier is a plain
/// name and the extension is made of plain characters, the path has these
/// three components; with other texts `Path::join` decides.
pub fn get_profile_path(profile_id: &str, extension: &str) -> (path: PathBuf)
    ensures
        is_plain_name(profile_id@) && is_plain_text(extension@) ==> components(path) == seq![
            data_dir_name(),
            profile_id@,
            file_name(extension@),
        ],
{
    let name = profile_file_name(extension);
    proof {
        reveal_strlit("data");
        reveal_strlit("profile.");
        assert("data"@ =~= seq!['d', 'a', 't', 'a']);
        assert(is_plain_name("data"@));
        if is_plain_text(extension@) {
            assert("profile."@ =~= seq!['p', 'r', 'o', 'f', 'i', 'l', 'e', '.']);
            lemma_file_name_is_plain(extension@);
        }
    }
    let dir = path_join(&path_from("data"), profile_id);
    let path = path_join(&dir, name.as_str());
    proof {
        if is_plain_name(profile_id@) && is_plain_text(extension@) {
            assert(components(path) =~= seq![
                data_dir_name(),
                profile_id@,
                file_name(extension@),
            ]);
        }
    }
    path
}

/// The components of a path, in order, each as its text: what
/// `Path::components` gives for the path.
pub uninterp spec fn components(path: PathBuf) -> Seq<Seq<char>>;

/// The name of the directory that holds the directories of all profiles.
pub open spec fn data_dir_name() -> Seq<char> {
    "data"@
}

/// The name of a profile's file with the given extension.
pub open spec fn file_name(extension: Seq<char>) -> Seq<char> {
    "profile."@ + extension
}

/// A character that means nothing to a path on any platform: a letter or
/// digit of ASCII, a hyphen, an underscore or a dot.
pub open spec fn is_plain_char(c: char) -> bool {
    ||| 'a' as u32 <= c as u32 <= 'z' as u32
    ||| 'A' as u32 <= c as u32 <= 'Z' as u32
    ||| '0' as u32 <= c as u32 <= '9' as u32
    ||| c == '-'
    ||| c == '_'
    ||| c == '.'
}

/// A text of plain characters.
pub open spec fn is_plain_text(text: Seq<char>) -> bool {
    forall|i: int| 0 <= i < text.len() ==> is_plain_char(#[trigger] text[i])
}

/// A name that is one component of a path on every platform: a text of
/// plain characters that is not empty and is neither `.` nor `..`.
pub open spec fn is_plain_name(name: Seq<char>) -> bool {
    &&& name.len() > 0
    &&& is_plain_text(name)
    &&& name != seq!['.']
    &&& name != seq!['.', '.']
}

/// With an extension of plain characters, the name of the file is plain.
pub proof fn lemma_file_name_is_plain(extension: Seq<char>)
    requires
        is_plain_text(extension),
        "profile."@ == seq!['p', 'r', 'o', 'f', 'i', 'l', 'e', '.'],
    ensures
        is_plain_name(file_name(extension)),
{
    let name = file_name(extension);
    assert(name.len() >= 8);
    assert forall|i: int| 0 <= i < name.len() implies is_plain_char(#[trigger] name[i]) by {
        if i >= 8 {
            assert(name[i] == extension[i - 8]);
        }
    }
    assert(name[0] == 'p');
}

} // verus!
