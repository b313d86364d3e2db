//! Where the persisted documents live: a storage root holding the directory
//! map and one record file per directory.
use vstd::prelude::*;
use crate::text::{chars_of, push_char, push_chars};

verus! {

pub open spec fn path_sep() -> char {
    '/'
}

/// `base` with the component `name` pushed onto it.
pub open spec fn joined(base: Seq<char>, name: Seq<char>) -> Seq<char> {
    base.push(path_sep()) + name
}

/// The name of the storage root, under the home directory.
pub open spec fn todo_dir_name() -> Seq<char> {
    seq!['t', 'o', 'd', 'o']
}

/// The name of the directory map.
pub open spec fn dir_map_name() -> Seq<char> {
    seq!['d', 'i', 'r', 'm', 'a', 'p', '.', 't', 's', 'v']
}

/// The name under which a new directory map is written before it replaces
/// the old one.
pub open spec fn dir_map_new_name() -> Seq<char> {
    seq!['d', 'i', 'r', 'm', 'a', 'p', '.', 'n', 'e', 'w', '.', 't', 's', 'v']
}

/// Calls `f` with the path `buf/to_push`, and leaves `buf` as it was.
pub fn with_pushed<F, Out>(buf: &mut String, to_push: &str, f: F) -> (out: Out) where
    F: Fn(&str) -> Out,

    requires
        forall|p: &str| p@ == joined(old(buf)@, to_push@) ==> #[trigger] f.requires((p,)),
    ensures
        final(buf)@ == old(buf)@,
        exists|p: &str| p@ == joined(old(buf)@, to_push@) && f.ensures((p,), out),
{
    let saved = buf.clone();
    push_char(buf, '/');
    let name = chars_of(to_push);
    push_chars(buf, &name);
    let p = buf.as_str();
    assert(p@ == joined(saved@, to_push@));
    let out = f(p);
    *buf = saved;
    out
}

/// The storage root and the paths of the documents in it.
#[derive(Debug)]
pub struct StorageContext {
    pub root: String,
}

/// `base/name`, built from a literal name.
fn join_literal(base: &String, name: &str) -> (r: String)
    ensures
        r@ == joined(base@, name@),
{
    let mut r = base.clone();
    push_char(&mut r, '/');
    let c = chars_of(name);
    push_chars(&mut r, &c);
    r
}

impl StorageContext {
    /// The storage root under the home directory `home`.
    pub fn under_home(home: &str) -> (r: StorageContext)
        ensures
            r.root@ == joined(home@, todo_dir_name()),
    {
        let h = home.to_owned();
        let root = join_literal(&h, "todo");
        proof {
            reveal_strlit("todo");
        }
        StorageContext { root }
    }

    pub fn dir_map_path(&self) -> (r: String)
        ensures
            r@ == joined(self.root@, dir_map_name()),
    {
        let r = join_literal(&self.root, "dirmap.tsv");
        proof {
            reveal_strlit("dirmap.tsv");
        }
        r
    }

    pub fn dir_map_new_path(&self) -> (r: String)
        ensures
            r@ == joined(self.root@, dir_map_new_name()),
    {
        let r = join_literal(&self.root, "dirmap.new.tsv");
        proof {
            reveal_strlit("dirmap.new.tsv");
        }
        r
    }

    /// The path of the record file named `token`.
    pub fn record_path(&self, token: &str) -> (r: String)
        ensures
            r@ == joined(self.root@, token@),
    {
        join_literal(&self.root, token)
    }
}

} // verus!
