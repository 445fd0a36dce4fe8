//! Where automations and tasks are stored when nobody says, and where artifacts are.
use vstd::prelude::*;
use vstd::string::*;

use crate::task::{artifact_reference_spec, ARTIFACTS_DIR};
use crate::text::{chars_of, copy_text, is_blank, join2, join3, trim, trimmed};

verus! {

/// The directory of a user's data.
pub const DATA_DIR: &'static str = ".codewhale";

/// The directory that held a user's data before.
pub const LEGACY_DATA_DIR: &'static str = ".deepseek";

/// A place for stored records.
#[derive(Debug)]
pub enum Place {
    /// A directory that was named.
    Given(String),
    /// A directory in the data directory that was named.
    InBase,
    /// A directory in the user's data directory.
    Primary,
    /// A directory in the data directory of former versions.
    Legacy,
    /// A directory in the data directory below the working directory.
    Relative,
}

/// The directory of automations: the one that is named, else the one in the data
/// directory that is named, else the one in the user's home. A directory of former
/// versions is used where it is the only one.
pub fn default_automations_dir(
    named: Option<&str>,
    has_base: bool,
    has_home: bool,
    primary_exists: bool,
    legacy_exists: bool,
) -> (r: Place)
    ensures
        match named {
            Some(path) if !is_blank(path@) => r matches Place::Given(p) && p@ == trimmed(path@),
            _ => if has_base {
                r is InBase
            } else if !has_home {
                r is Relative
            } else if primary_exists || !legacy_exists {
                r is Primary
            } else {
                r is Legacy
            },
        },
{
    if let Some(path) = named {
        let bare = trim(path);
        if bare.as_str().unicode_len() > 0 {
            return Place::Given(bare);
        }
    }
    if has_base {
        Place::InBase
    } else if !has_home {
        Place::Relative
    } else if primary_exists || !legacy_exists {
        Place::Primary
    } else {
        Place::Legacy
    }
}

/// The directory of tasks in a user's home.
pub fn default_tasks_dir_for_home(primary_is_dir: bool, legacy_is_dir: bool) -> (r: Place)
    ensures
        if legacy_is_dir && !primary_is_dir {
            r is Legacy
        } else {
            r is Primary
        },
{
    if primary_is_dir {
        return Place::Primary;
    }
    if legacy_is_dir {
        return Place::Legacy;
    }
    Place::Primary
}

/// The directory of tasks: the one that is named, as it is written, else the one in the
/// user's home.
pub fn default_tasks_dir(
    named: Option<&str>,
    has_home: bool,
    primary_is_dir: bool,
    legacy_is_dir: bool,
) -> (r: Place)
    ensures
        match named {
            Some(path) if !is_blank(path@) => r matches Place::Given(p) && p@ == path@,
            _ => if !has_home {
                r is Relative
            } else if legacy_is_dir && !primary_is_dir {
                r is Legacy
            } else {
                r is Primary
            },
        },
{
    if let Some(path) = named {
        if trim(path).as_str().unicode_len() > 0 {
            return Place::Given(copy_text(path));
        }
    }
    if has_home {
        default_tasks_dir_for_home(primary_is_dir, legacy_is_dir)
    } else {
        Place::Relative
    }
}

/// A path below a directory.
pub open spec fn below(dir: Seq<char>, path: Seq<char>) -> Seq<char> {
    if dir.len() == 0 || dir.last() == '/' {
        dir + path
    } else {
        dir + "/"@ + path
    }
}

fn join_path(dir: &str, path: &str) -> (r: String)
    ensures
        r@ == below(dir@, path@),
{
    let letters = chars_of(dir);
    let n: usize = letters.len();
    if n == 0 || letters[n - 1] == '/' {
        join2(dir, path)
    } else {
        join3(dir, "/", path)
    }
}

/// A path from the root.
pub open spec fn is_absolute(path: Seq<char>) -> bool {
    path.len() > 0 && path[0] == '/'
}

fn starts_at_root(path: &str) -> (r: bool)
    ensures
        r == is_absolute(path@),
{
    let letters = chars_of(path);
    letters.len() > 0 && letters[0] == '/'
}

/// The absolute path that a task's reference to an artifact stands for: a path that is not
/// absolute is read below the directory of tasks, and that one below the working directory.
pub fn artifact_absolute_path(working_dir: &str, data_dir: &str, path: &str) -> (r: String)
    ensures
        r@ == if is_absolute(path@) {
            path@
        } else if is_absolute(data_dir@) {
            below(data_dir@, path@)
        } else {
            below(below(working_dir@, data_dir@), path@)
        },
        is_absolute(working_dir@) ==> is_absolute(r@),
{
    if starts_at_root(path) {
        copy_text(path)
    } else if starts_at_root(data_dir) {
        join_path(data_dir, path)
    } else {
        join_path(join_path(working_dir, data_dir).as_str(), path)
    }
}

/// The reference to a task's artifact is read below the directory of tasks: it is not a path
/// from the root.
pub proof fn artifacts_stand_below_the_tasks(task_id: Seq<char>, filename: Seq<char>)
    ensures
        !is_absolute(artifact_reference_spec(task_id, filename)),
{
    reveal_strlit("artifacts");
    assert(ARTIFACTS_DIR@ == "artifacts"@);
    assert(artifact_reference_spec(task_id, filename)[0] == 'a');
}

/// A path below a directory is the directory and the path with one slash between them.
pub proof fn paths_stand_below_their_directory(dir: Seq<char>, path: Seq<char>)
    ensures
        dir.len() == 0 ==> below(dir, path) == path,
        dir.len() > 0 && dir[dir.len() - 1] == '/' ==> below(dir, path) == dir + path,
        dir.len() > 0 && dir[dir.len() - 1] != '/' ==> below(dir, path) == dir + seq!['/'] + path,
        is_absolute(dir) ==> is_absolute(below(dir, path)),
        is_absolute(path) <==> path.len() > 0 && path[0] == '/',
        artifact_reference_spec(dir, path) == "artifacts"@ + "/"@ + dir + "/"@ + path,
{
    reveal_strlit("/");
    assert("/"@ =~= seq!['/']);
    if dir.len() == 0 {
        assert(dir + path =~= path);
    }
    assert(ARTIFACTS_DIR@ == "artifacts"@);
}

} // verus!
