//! Where profiles are kept: a directory of JSON files, one per profile.
//!
//! The files themselves are read and written by the application; the
//! library keeps the directory, the names of the files found in it, and the
//! rule that gives the path of a file of the directory.

use vstd::prelude::*;
use vstd::string::{StrSliceExecFns, StringExecFns};

verus! {

/// The path of the file `name` under the directory `dir`, as a path is
/// joined on Unix: an absolute name (one that begins with `/`) stands for
/// itself; otherwise the name follows the directory, with a `/` between them
/// unless the directory is empty or already ends in one.
pub open spec fn joined_path(dir: Seq<char>, name: Seq<char>) -> Seq<char> {
    if name.len() > 0 && name[0] == '/' {
        name
    } else if dir.len() == 0 || dir.last() == '/' {
        dir + name
    } else {
        dir + seq!['/'] + name
    }
}

/// How a file name and the directory make a path: an absolute name (one that
/// begins with `/`) gives itself, whatever the directory. Any other name gives
/// a path that begins with the whole directory and ends with the whole name,
/// with exactly one `/` between them when the directory is not empty and does
/// not already end in one, and nothing between them otherwise.
pub proof fn lemma_joined_path(dir: Seq<char>, name: Seq<char>)
    ensures
        name.len() > 0 && name[0] == '/' ==> joined_path(dir, name) == name,
        !(name.len() > 0 && name[0] == '/') ==> {
            let r = joined_path(dir, name);
            let sep: int = if dir.len() > 0 && dir.last() != '/' { 1 } else { 0 };
            &&& r.len() == dir.len() + sep + name.len()
            &&& r.subrange(0, dir.len() as int) == dir
            &&& r.subrange(dir.len() + sep, r.len() as int) == name
            &&& sep == 1 ==> r[dir.len() as int] == '/'
        },
{
    if !(name.len() > 0 && name[0] == '/') {
        let r = joined_path(dir, name);
        let sep: int = if dir.len() > 0 && dir.last() != '/' { 1 } else { 0 };
        assert(r.subrange(0, dir.len() as int) =~= dir);
        assert(r.subrange(dir.len() + sep, r.len() as int) =~= name);
    }
}

/// The profile directory and the file names found in it so far.
pub struct Dao {
    pub ip_dir: String,
    pub all_confs: Vec<String>,
}

impl Dao {
    /// A store over the directory `dir`, with no file names yet. The caller
    /// makes sure that the directory exists.
    pub fn new(dir: String) -> (r: Self)
        ensures
            r.ip_dir@ == dir@,
            r.all_confs@.len() == 0,
    {
        Dao { ip_dir: dir, all_confs: Vec::new() }
    }

    /// Records the names of the profile files found in the directory, after
    /// those recorded before, in the order given.
    pub fn load_all_confs(&mut self, file_names: Vec<String>)
        ensures
            final(self).all_confs@ == old(self).all_confs@ + file_names@,
            final(self).ip_dir == old(self).ip_dir,
    {
        let mut names = file_names;
        self.all_confs.append(&mut names);
    }

    /// The path of the profile file `name` of the directory.
    pub fn config_path(&self, name: &str) -> (r: String)
        ensures
            r@ == joined_path(self.ip_dir@, name@),
            name@.len() > 0 && name@[0] == '/' ==> r@ == name@,
            !(name@.len() > 0 && name@[0] == '/') ==> r@.subrange(0, self.ip_dir@.len() as int) == self.ip_dir@,
    {
        if name.unicode_len() > 0 && name.get_char(0) == '/' {
            return name.to_owned();
        }
        let dir = self.ip_dir.as_str();
        let n = dir.unicode_len();
        let mut path = dir.to_owned();
        if n > 0 && dir.get_char(n - 1) != '/' {
            path.append("/");
            proof {
                reveal_strlit("/");
            }
        }
        path.append(name);
        proof {
            lemma_joined_path(self.ip_dir@, name@);
        }
        path
    }
}

} // verus!
